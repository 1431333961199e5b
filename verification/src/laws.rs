//! Properties that hold across the library's functions.
use crate::cache::{content_hash, lookup};
use crate::report::{escape_piece, spec_escape_cell};
use crate::runner::at_or_above;
use crate::config::{setting_enables, setting_severity, LintConfig, RuleSetting};
use crate::disable_comments::{block_after, line_suppressed, names_rule, spec_parse_directive, DirectiveKind};
use crate::doc::Document;
use crate::fix::{apply_spans, first_latest, range_span, spans_of, spec_apply_fixes, splice};
use crate::message::{
    closest_index, distance_to, lemma_all_rule_ids_index, spec_all_rule_ids, spec_closest_rule_id,
    suggest_threshold, RuleId,
};
use crate::report_item::{item_insert_pos, sort_items, spec_merge, unsuppressed, ItemView};
use crate::rules::{concat_upto, key_le, sort_views, spec_check, spec_default_severity, view_insert_pos};
use crate::text::{lemma_offset_bound, spec_lines};
use crate::{rule_output, spec_run, DiagView, Range, Severity};
use vstd::prelude::*;

verus! {

/// Positions sort by start line, then start column: `key_le` is total.
pub proof fn lemma_key_le_total(a: Option<Range>, b: Option<Range>)
    ensures
        key_le(a, b) || key_le(b, a),
{
}

/// Positions sort by start line, then start column: `key_le` is transitive.
pub proof fn lemma_key_le_transitive(a: Option<Range>, b: Option<Range>, c: Option<Range>)
    requires
        key_le(a, b),
        key_le(b, c),
    ensures
        key_le(a, c),
{
}

/// Whether the diagnostics of `vs` come in position order.
pub open spec fn views_sorted(vs: Seq<DiagView>) -> bool {
    forall|i: int, j: int| 0 <= i < j < vs.len() ==> key_le(vs[i].range, vs[j].range)
}

proof fn lemma_view_insert_pos_facts(o: Seq<DiagView>, k: Option<Range>)
    ensures
        view_insert_pos(o, k) <= o.len(),
        forall|i: int| 0 <= i < view_insert_pos(o, k) ==> key_le(o[i].range, k),
        view_insert_pos(o, k) < o.len() ==> !key_le(o[view_insert_pos(o, k) as int].range, k),
    decreases o.len(),
{
    if o.len() > 0 && key_le(o[0].range, k) {
        let t = o.drop_first();
        lemma_view_insert_pos_facts(t, k);
        assert forall|i: int| 0 <= i < view_insert_pos(o, k) implies key_le(o[i].range, k) by {
            if i > 0 {
                assert(o[i] == t[i - 1]);
            }
        }
        if view_insert_pos(o, k) < o.len() {
            assert(o[view_insert_pos(o, k) as int] == t[view_insert_pos(t, k) as int]);
        }
    }
}

/// A lint run's diagnostics come sorted by position, and sorting loses or adds none.
pub proof fn law_sorted_by_position(vs: Seq<DiagView>)
    ensures
        views_sorted(sort_views(vs)),
        sort_views(vs).to_multiset() == vs.to_multiset(),
    decreases vs.len(),
{
    broadcast use vstd::seq_lib::to_multiset_insert, vstd::seq_lib::to_multiset_build;

    if vs.len() > 0 {
        let o = sort_views(vs.drop_last());
        law_sorted_by_position(vs.drop_last());
        let x = vs.last();
        lemma_view_insert_pos_facts(o, x.range);
        let p = view_insert_pos(o, x.range) as int;
        let r = o.insert(p, x);
        assert forall|i: int, j: int| 0 <= i < j < r.len() implies key_le(r[i].range, r[j].range) by {
            if j < p {
                assert(r[i] == o[i] && r[j] == o[j]);
            } else if j == p {
                assert(r[i] == o[i]);
            } else if i < p {
                assert(r[i] == o[i] && r[j] == o[j - 1]);
                lemma_key_le_total(o[p].range, x.range);
                lemma_key_le_transitive(o[i].range, x.range, o[p].range);
                if j - 1 > p {
                    lemma_key_le_transitive(o[i].range, o[p].range, o[j - 1].range);
                }
            } else if i == p {
                assert(r[j] == o[j - 1]);
                lemma_key_le_total(o[p].range, x.range);
                if j - 1 > p {
                    lemma_key_le_transitive(x.range, o[p].range, o[j - 1].range);
                }
            } else {
                assert(r[i] == o[i - 1] && r[j] == o[j - 1]);
            }
        }
        assert(vs.drop_last().push(x) =~= vs);
    }
}

/// A lint run reports its diagnostics in position order.
pub proof fn law_run_sorted(rules: Seq<RuleId>, doc: Document, source: Seq<char>, config: LintConfig)
    ensures
        views_sorted(spec_run(rules, doc, source, config)),
{
    law_sorted_by_position(crate::rules::concat_upto(
        rules.len() as int,
        crate::rule_output_each(rules, doc, source, config),
    ));
}

proof fn lemma_concat_upto_member(n: int, f: spec_fn(int) -> Seq<DiagView>, x: DiagView)
    requires
        concat_upto(n, f).contains(x),
    ensures
        exists|k: int| 0 <= k < n && (#[trigger] f(k)).contains(x),
    decreases n,
{
    if n > 0 {
        let a = concat_upto(n - 1, f);
        let b = f(n - 1);
        let i = choose|i: int| 0 <= i < (a + b).len() && (a + b)[i] == x;
        if i < a.len() {
            assert(a[i] == x);
            lemma_concat_upto_member(n - 1, f, x);
        } else {
            assert(b[i - a.len()] == x);
        }
    }
}

/// Every finding of a lint run comes from one of the run's rules that the configuration
/// enables, and carries that rule's configured severity (its default where none is set).
pub proof fn law_run_findings_come_from_enabled_rules(
    rules: Seq<RuleId>,
    doc: Document,
    source: Seq<char>,
    config: LintConfig,
    i: int,
)
    requires
        0 <= i < spec_run(rules, doc, source, config).len(),
    ensures
        exists|k: int|
            0 <= k < rules.len() && setting_enables(config.spec_setting(#[trigger] rules[k]))
                && rule_output(rules[k], doc, source, config).contains(spec_run(rules, doc, source, config)[i])
                && spec_run(rules, doc, source, config)[i].severity == setting_severity(
                config.spec_setting(rules[k]),
                spec_default_severity(rules[k]),
            ),
{
    broadcast use vstd::seq_lib::to_multiset_contains;

    let f = crate::rule_output_each(rules, doc, source, config);
    let all = concat_upto(rules.len() as int, f);
    let x = spec_run(rules, doc, source, config)[i];
    law_sorted_by_position(all);
    assert(spec_run(rules, doc, source, config).contains(x));
    assert(spec_run(rules, doc, source, config).to_multiset().count(x) > 0);
    assert(all.to_multiset().count(x) > 0);
    assert(all.contains(x));
    lemma_concat_upto_member(rules.len() as int, f, x);
    let k = choose|k: int| 0 <= k < rules.len() && (#[trigger] f(k)).contains(x);
    let out = rule_output(rules[k], doc, source, config);
    assert(f(k) == out);
    let m = choose|m: int| 0 <= m < out.len() && out[m] == x;
    assert(setting_enables(config.spec_setting(rules[k])));
}

/// A rule the configuration disables contributes nothing to a lint run./// A rule the configuration disables contributes nothing to a lint run.
pub proof fn law_disabled_rule_is_silent(id: RuleId, doc: Document, source: Seq<char>, config: LintConfig)
    requires
        !setting_enables(config.spec_setting(id)),
    ensures
        rule_output(id, doc, source, config) == Seq::<DiagView>::empty(),
{
}

/// An enabled rule contributes its diagnostics, each at the configured severity (or the rule's
/// default when none is configured).
pub proof fn law_enabled_rule_severity(id: RuleId, doc: Document, source: Seq<char>, config: LintConfig, i: int)
    requires
        setting_enables(config.spec_setting(id)),
        0 <= i < spec_check(id, doc, source, config).len(),
    ensures
        rule_output(id, doc, source, config).len() == spec_check(id, doc, source, config).len(),
        rule_output(id, doc, source, config)[i].severity == setting_severity(
            config.spec_setting(id),
            spec_default_severity(id),
        ),
        rule_output(id, doc, source, config)[i].range == spec_check(id, doc, source, config)[i].range,
        rule_output(id, doc, source, config)[i].text == spec_check(id, doc, source, config)[i].text,
{
}

/// With no configuration, every rule runs at its default severity.
pub proof fn law_default_config(config: LintConfig, id: RuleId, default: crate::Severity)
    requires
        config.settings() == Map::<RuleId, RuleSetting>::empty(),
    ensures
        setting_enables(config.spec_setting(id)),
        setting_severity(config.spec_setting(id), default) == default,
{
}

/// Disabling a rule turns it off whatever the configuration said before, and changes no other
/// rule's setting.
pub proof fn law_disable_wins(before: LintConfig, after: LintConfig, id: RuleId, other: RuleId)
    requires
        after.settings() == before.settings().insert(id, RuleSetting::Enabled(false)),
        other != id,
    ensures
        !setting_enables(after.spec_setting(id)),
        after.spec_setting(other) == before.spec_setting(other),
{
}

/// Applying no fixes gives back the source unchanged.
pub proof fn law_no_fixes_no_change(source: Seq<char>)
    ensures
        spec_apply_fixes(source, Seq::<(Range, Seq<char>)>::empty()) == source,
{
    assert(crate::fix::spans_of(source, Seq::<(Range, Seq<char>)>::empty()) =~= Seq::<(int, int, Seq<char>)>::empty());
}

/// A single fix whose range maps onto the source replaces exactly the span it covers.
pub proof fn law_one_fix_replaces_its_span(source: Seq<char>, fix: (Range, Seq<char>), start: int, end: int)
    requires
        source.len() <= usize::MAX,
        range_span(source, fix.0) == Some((start, end)),
    ensures
        spec_apply_fixes(source, seq![fix]) == source.take(start) + fix.1 + source.skip(end),
{
    lemma_offset_bound(source, fix.0.end_line as int, fix.0.end_column as int);
    let spans = spans_of(source, seq![fix]);
    let empty = Seq::<(Range, Seq<char>)>::empty();
    assert(spans_of(source, empty) == Seq::<(int, int, Seq<char>)>::empty());
    assert(seq![fix].drop_last() =~= empty);
    assert(seq![fix].last() == fix);
    assert(spans =~= seq![(start, end, fix.1)]);
    assert(first_latest(spans, 1) == 0);
    let none = Seq::<(int, int, Seq<char>)>::empty();
    assert(spans.remove(0) =~= none);
    let done = splice(source, start, end, fix.1);
    assert(apply_spans(done, none, start) == done);
    assert(apply_spans(source, spans, usize::MAX as int) == apply_spans(done, none, start));
}

/// A fix whose range does not map onto the source changes nothing.
pub proof fn law_unmapped_fix_is_ignored(source: Seq<char>, fix: (Range, Seq<char>))
    requires
        range_span(source, fix.0) is None,
    ensures
        spec_apply_fixes(source, seq![fix]) == source,
{
    let empty = Seq::<(Range, Seq<char>)>::empty();
    assert(spans_of(source, empty) == Seq::<(int, int, Seq<char>)>::empty());
    assert(seq![fix].drop_last() =~= empty);
    assert(seq![fix].last() == fix);
    assert(spans_of(source, seq![fix]) =~= Seq::<(int, int, Seq<char>)>::empty());
}

proof fn lemma_unmapped_span_skipped(source: Seq<char>, fixes: Seq<(Range, Seq<char>)>, k: int, fix: (Range, Seq<char>))
    requires
        0 <= k <= fixes.len(),
        range_span(source, fix.0) is None,
    ensures
        spans_of(source, fixes.insert(k, fix)) == spans_of(source, fixes),
    decreases fixes.len(),
{
    let with = fixes.insert(k, fix);
    if k == fixes.len() {
        assert(with.drop_last() =~= fixes);
        assert(with.last() == fix);
    } else {
        assert(with.drop_last() =~= fixes.drop_last().insert(k, fix));
        assert(with.last() == fixes.last());
        lemma_unmapped_span_skipped(source, fixes.drop_last(), k, fix);
    }
}

/// A fix whose range does not map onto the source, put anywhere among other fixes, changes
/// nothing: the others apply as they would without it.
pub proof fn law_unmapped_fix_among_others_is_ignored(
    source: Seq<char>,
    fixes: Seq<(Range, Seq<char>)>,
    k: int,
    fix: (Range, Seq<char>),
)
    requires
        0 <= k <= fixes.len(),
        range_span(source, fix.0) is None,
    ensures
        spec_apply_fixes(source, fixes.insert(k, fix)) == spec_apply_fixes(source, fixes),
{
    lemma_unmapped_span_skipped(source, fixes, k, fix);
}

/// Whether no two edits start at the same offset.
pub open spec fn starts_distinct(spans: Seq<(int, int, Seq<char>)>) -> bool {
    forall|i: int, j: int| 0 <= i < j < spans.len() ==> (#[trigger] spans[i]).0 != (#[trigger] spans[j]).0
}

proof fn lemma_first_latest_max(spans: Seq<(int, int, Seq<char>)>, n: nat, i: int)
    requires
        1 <= n <= spans.len(),
        0 <= i < n,
    ensures
        first_latest(spans, n) < n,
        spans[i].0 <= spans[first_latest(spans, n) as int].0,
    decreases n,
{
    if n > 1 {
        if i < n - 1 {
            lemma_first_latest_max(spans, (n - 1) as nat, i);
        } else {
            lemma_first_latest_max(spans, (n - 1) as nat, 0);
        }
    }
}

proof fn lemma_remove_keeps_distinct(spans: Seq<(int, int, Seq<char>)>, k: int)
    requires
        starts_distinct(spans),
        0 <= k < spans.len(),
    ensures
        starts_distinct(spans.remove(k)),
{
    let r = spans.remove(k);
    assert forall|i: int, j: int| 0 <= i < j < r.len() implies (#[trigger] r[i]).0 != (#[trigger] r[j]).0 by {
        let i2 = if i < k { i } else { i + 1 };
        let j2 = if j < k { j } else { j + 1 };
        assert(r[i] == spans[i2] && r[j] == spans[j2]);
    }
}

/// Edits with distinct starts apply the same whatever their order.
proof fn lemma_apply_spans_any_order(
    text: Seq<char>,
    a: Seq<(int, int, Seq<char>)>,
    b: Seq<(int, int, Seq<char>)>,
    bound: int,
)
    requires
        a.to_multiset() == b.to_multiset(),
        starts_distinct(a),
    ensures
        apply_spans(text, a, bound) == apply_spans(text, b, bound),
    decreases a.len(),
{
    broadcast use vstd::seq_lib::to_multiset_len, vstd::seq_lib::to_multiset_contains,
        vstd::seq_lib::to_multiset_remove;

    assert(a.len() == a.to_multiset().len());
    assert(b.len() == b.to_multiset().len());
    if a.len() > 0 {
        let ka = first_latest(a, a.len()) as int;
        let kb = first_latest(b, b.len()) as int;
        lemma_first_latest_max(a, a.len(), 0);
        lemma_first_latest_max(b, b.len(), 0);
        let x = a[ka];
        let y = b[kb];
        assert(b.contains(y));
        assert(b.to_multiset().count(y) > 0);
        assert(a.contains(y));
        let i = choose|i: int| 0 <= i < a.len() && a[i] == y;
        lemma_first_latest_max(a, a.len(), i);
        assert(a.contains(x));
        assert(a.to_multiset().count(x) > 0);
        assert(b.contains(x));
        let m = choose|m: int| 0 <= m < b.len() && b[m] == x;
        lemma_first_latest_max(b, b.len(), m);
        assert(y.0 == x.0);
        if i != ka {
            if i < ka {
                assert(a[i].0 != a[ka].0);
            } else {
                assert(a[ka].0 != a[i].0);
            }
        }
        assert(x == y);
        assert(a.remove(ka).to_multiset() == a.to_multiset().remove(x));
        assert(b.remove(kb).to_multiset() == b.to_multiset().remove(y));
        lemma_remove_keeps_distinct(a, ka);
        lemma_apply_spans_any_order(text, a.remove(ka), b.remove(kb), bound);
        let (s, e, rep) = x;
        lemma_apply_spans_any_order(splice(text, s, e, rep), a.remove(ka), b.remove(kb), s);
    } else {
        assert(b.len() == 0);
    }
}

/// `text` with every edit of `spans` made, the last first, so that each edit's offsets are
/// those of the original text.
pub open spec fn replaced(text: Seq<char>, spans: Seq<(int, int, Seq<char>)>) -> Seq<char>
    decreases spans.len(),
{
    if spans.len() == 0 {
        text
    } else {
        replaced(splice(text, spans.last().0, spans.last().1, spans.last().2), spans.drop_last())
    }
}

/// Whether the edits come in order of their starts and none reaches into the next.
pub open spec fn disjoint_in_order(spans: Seq<(int, int, Seq<char>)>) -> bool {
    &&& forall|i: int| 0 <= i < spans.len() ==> (#[trigger] spans[i]).0 <= spans[i].1
    &&& forall|i: int| 0 <= i < spans.len() - 1 ==> (#[trigger] spans[i]).1 <= spans[i + 1].0
        && spans[i].0 < spans[i + 1].0
}

proof fn lemma_in_order_max(spans: Seq<(int, int, Seq<char>)>, i: int, j: int)
    requires
        disjoint_in_order(spans),
        0 <= i < j < spans.len(),
    ensures
        spans[i].1 <= spans[j].0,
        spans[i].0 < spans[j].0,
    decreases j - i,
{
    if j > i + 1 {
        lemma_in_order_max(spans, i, j - 1);
        assert(spans[j - 1].1 <= spans[j].0 && spans[j - 1].0 < spans[j].0);
    }
}

proof fn lemma_first_latest_is_last(spans: Seq<(int, int, Seq<char>)>, n: nat)
    requires
        disjoint_in_order(spans),
        1 <= n <= spans.len(),
    ensures
        first_latest(spans, n) == n - 1,
    decreases n,
{
    if n > 1 {
        lemma_first_latest_is_last(spans, (n - 1) as nat);
        lemma_in_order_max(spans, n - 2, n - 1);
    }
}

/// Edits that come in order and do not overlap are all made, each at its own offsets.
proof fn lemma_disjoint_all_applied(text: Seq<char>, spans: Seq<(int, int, Seq<char>)>, bound: int)
    requires
        disjoint_in_order(spans),
        spans.len() > 0 ==> spans.last().1 <= bound,
    ensures
        apply_spans(text, spans, bound) == replaced(text, spans),
    decreases spans.len(),
{
    if spans.len() > 0 {
        let n = spans.len();
        lemma_first_latest_is_last(spans, n);
        let rest = spans.drop_last();
        assert(spans.remove(n - 1) =~= rest);
        let last = spans.last();
        assert(disjoint_in_order(rest)) by {
            assert forall|i: int| 0 <= i < rest.len() implies (#[trigger] rest[i]).0 <= rest[i].1 by {
                assert(rest[i] == spans[i]);
            }
            assert forall|i: int| 0 <= i < rest.len() - 1 implies (#[trigger] rest[i]).1 <= rest[i + 1].0
                && rest[i].0 < rest[i + 1].0 by {
                assert(rest[i] == spans[i] && rest[i + 1] == spans[i + 1]);
            }
        }
        if n > 1 {
            lemma_in_order_max(spans, n - 2, n - 1);
            assert(rest.last() == spans[n - 2]);
        }
        lemma_disjoint_all_applied(splice(text, last.0, last.1, last.2), rest, last.0);
    }
}

/// Fixes that map onto the source and neither overlap nor share a start are every one of them
/// applied, whatever the order they are given in: the result is the source with each fix's
/// span replaced by its text.
pub proof fn law_disjoint_fixes_all_apply(
    source: Seq<char>,
    fixes: Seq<(Range, Seq<char>)>,
    in_order: Seq<(int, int, Seq<char>)>,
)
    requires
        source.len() <= usize::MAX,
        forall|i: int| 0 <= i < fixes.len() ==> range_span(source, (#[trigger] fixes[i]).0) is Some,
        in_order.to_multiset() == fixes.map_values(|f: (Range, Seq<char>)| span_of(source, f)).to_multiset(),
        disjoint_in_order(in_order),
    ensures
        spec_apply_fixes(source, fixes) == replaced(source, in_order),
{
    broadcast use vstd::seq_lib::to_multiset_contains, vstd::seq_lib::to_multiset_len;

    lemma_spans_of_mapped(source, fixes);
    let sp = spans_of(source, fixes);
    assert forall|i: int, j: int| 0 <= i < j < in_order.len() implies (#[trigger] in_order[i]).0 != (#[trigger] in_order[j]).0 by {
        lemma_in_order_max(in_order, i, j);
    }
    lemma_apply_spans_any_order(source, in_order, sp, usize::MAX as int);
    if in_order.len() > 0 {
        let x = in_order.last();
        assert(in_order.contains(x));
        assert(in_order.to_multiset().count(x) > 0);
        assert(sp.contains(x));
        let i = choose|i: int| 0 <= i < sp.len() && sp[i] == x;
        assert(sp[i] == span_of(source, fixes[i]));
        lemma_offset_bound(source, fixes[i].0.end_line as int, fixes[i].0.end_column as int);
    }
    lemma_disjoint_all_applied(source, in_order, usize::MAX as int);
}

/// The edit a mapped fix makes to `source`.
pub open spec fn span_of(source: Seq<char>, fix: (Range, Seq<char>)) -> (int, int, Seq<char>) {
    match range_span(source, fix.0) {
        Some((s, e)) => (s, e, fix.1),
        None => (0, 0, fix.1),
    }
}

proof fn lemma_spans_of_mapped(source: Seq<char>, fixes: Seq<(Range, Seq<char>)>)
    requires
        forall|i: int| 0 <= i < fixes.len() ==> range_span(source, (#[trigger] fixes[i]).0) is Some,
    ensures
        spans_of(source, fixes) == fixes.map_values(|f: (Range, Seq<char>)| span_of(source, f)),
    decreases fixes.len(),
{
    if fixes.len() > 0 {
        let d = fixes.drop_last();
        assert forall|i: int| 0 <= i < d.len() implies range_span(source, (#[trigger] d[i]).0) is Some by {
            assert(d[i] == fixes[i]);
        }
        lemma_spans_of_mapped(source, d);
        assert(range_span(source, fixes[fixes.len() - 1].0) is Some);
        assert(fixes.map_values(|f: (Range, Seq<char>)| span_of(source, f)) =~= d.map_values(
            |f: (Range, Seq<char>)| span_of(source, f),
        ).push(span_of(source, fixes.last())));
    } else {
        assert(fixes.map_values(|f: (Range, Seq<char>)| span_of(source, f)) =~= Seq::<(int, int, Seq<char>)>::empty());
    }
}

proof fn lemma_map_keeps_multiset(source: Seq<char>, a: Seq<(Range, Seq<char>)>, b: Seq<(Range, Seq<char>)>)
    requires
        a.to_multiset() == b.to_multiset(),
    ensures
        a.map_values(|f: (Range, Seq<char>)| span_of(source, f)).to_multiset() == b.map_values(
            |f: (Range, Seq<char>)| span_of(source, f),
        ).to_multiset(),
    decreases a.len(),
{
    broadcast use vstd::seq_lib::to_multiset_len, vstd::seq_lib::to_multiset_contains,
        vstd::seq_lib::to_multiset_remove, vstd::seq_lib::to_multiset_build,
        vstd::seq_lib::to_multiset_insert;

    assert(a.len() == a.to_multiset().len());
    assert(b.len() == b.to_multiset().len());
    if a.len() > 0 {
        let x = a.last();
        assert(a.contains(x));
        assert(a.to_multiset().count(x) > 0);
        assert(b.contains(x));
        let i = choose|i: int| 0 <= i < b.len() && b[i] == x;
        let d = a.drop_last();
        assert(d.push(x) =~= a);
        assert(b.remove(i).to_multiset() == b.to_multiset().remove(x));
        assert(d.to_multiset() == a.to_multiset().remove(x));
        lemma_map_keeps_multiset(source, d, b.remove(i));
        let g = |f: (Range, Seq<char>)| span_of(source, f);
        assert(a.map_values(g) =~= d.map_values(g).push(g(x)));
        assert(b.map_values(g) =~= b.remove(i).map_values(g).insert(i, g(x)));
    } else {
        assert(b.len() == 0);
        assert(a.map_values(|f: (Range, Seq<char>)| span_of(source, f)) =~= Seq::<(int, int, Seq<char>)>::empty());
        assert(b.map_values(|f: (Range, Seq<char>)| span_of(source, f)) =~= Seq::<(int, int, Seq<char>)>::empty());
    }
}

/// Fixes that all map onto the source and start at distinct places apply the same whatever
/// the order they are given in.
pub proof fn law_fix_order_does_not_matter(
    source: Seq<char>,
    fixes: Seq<(Range, Seq<char>)>,
    reordered: Seq<(Range, Seq<char>)>,
)
    requires
        reordered.to_multiset() == fixes.to_multiset(),
        forall|i: int| 0 <= i < fixes.len() ==> range_span(source, (#[trigger] fixes[i]).0) is Some,
        forall|i: int, j: int|
            0 <= i < j < fixes.len() ==> span_of(source, #[trigger] fixes[i]).0 != span_of(
                source,
                #[trigger] fixes[j],
            ).0,
    ensures
        spec_apply_fixes(source, reordered) == spec_apply_fixes(source, fixes),
{
    broadcast use vstd::seq_lib::to_multiset_contains;

    assert forall|i: int| 0 <= i < reordered.len() implies range_span(source, (#[trigger] reordered[i]).0) is Some by {
        assert(reordered.contains(reordered[i]));
        assert(reordered.to_multiset().count(reordered[i]) > 0);
        assert(fixes.contains(reordered[i]));
    }
    lemma_spans_of_mapped(source, fixes);
    lemma_spans_of_mapped(source, reordered);
    lemma_map_keeps_multiset(source, fixes, reordered);
    let sa = spans_of(source, fixes);
    assert forall|i: int, j: int| 0 <= i < j < sa.len() implies (#[trigger] sa[i]).0 != (#[trigger] sa[j]).0 by {
        assert(sa[i] == span_of(source, fixes[i]) && sa[j] == span_of(source, fixes[j]));
    }
    lemma_apply_spans_any_order(source, sa, spans_of(source, reordered), usize::MAX as int);
}

/// Two fixes, in either order: the one that starts later is applied;/// Two fixes, in either order: the one that starts later is applied; the earlier one is
/// applied too when it ends at or before the later one's start, and dropped when the two
/// overlap.
pub proof fn law_later_fix_wins_an_overlap(
    source: Seq<char>,
    fixes: Seq<(Range, Seq<char>)>,
    early: (Range, Seq<char>),
    late: (Range, Seq<char>),
    s1: int,
    e1: int,
    s2: int,
    e2: int,
)
    requires
        source.len() <= usize::MAX,
        fixes == seq![early, late] || fixes == seq![late, early],
        range_span(source, early.0) == Some((s1, e1)),
        range_span(source, late.0) == Some((s2, e2)),
        s1 < s2,
    ensures
        e1 <= s2 ==> spec_apply_fixes(source, fixes) == source.take(s1) + early.1 + source.subrange(
            e1,
            s2,
        ) + late.1 + source.skip(e2),
        e1 > s2 ==> spec_apply_fixes(source, fixes) == source.take(s2) + late.1 + source.skip(e2),
{
    lemma_offset_bound(source, late.0.start_line as int, late.0.start_column as int);
    lemma_offset_bound(source, late.0.end_line as int, late.0.end_column as int);
    lemma_offset_bound(source, early.0.start_line as int, early.0.start_column as int);
    lemma_offset_bound(source, early.0.end_line as int, early.0.end_column as int);
    let a = (s1, e1, early.1);
    let b = (s2, e2, late.1);
    let spans = spans_of(source, fixes);
    let empty = Seq::<(Range, Seq<char>)>::empty();
    assert(spans_of(source, empty) == Seq::<(int, int, Seq<char>)>::empty());
    if fixes == seq![early, late] {
        assert(fixes.drop_last() =~= seq![early]);
        assert(seq![early].drop_last() =~= empty);
        assert(seq![early].last() == early);
        assert(fixes.last() == late);
        assert(spans_of(source, seq![early]) =~= seq![a]);
        assert(spans =~= seq![a, b]);
        assert(first_latest(spans, 1) == 0);
        assert(first_latest(spans, 2) == 1);
        assert(spans.remove(1) =~= seq![a]);
    } else {
        assert(fixes.drop_last() =~= seq![late]);
        assert(seq![late].drop_last() =~= empty);
        assert(seq![late].last() == late);
        assert(fixes.last() == early);
        assert(spans_of(source, seq![late]) =~= seq![b]);
        assert(spans =~= seq![b, a]);
        assert(first_latest(spans, 1) == 0);
        assert(first_latest(spans, 2) == 0);
        assert(spans.remove(0) =~= seq![a]);
    }
    let once = splice(source, s2, e2, late.1);
    let none = Seq::<(int, int, Seq<char>)>::empty();
    assert(first_latest(seq![a], 1) == 0);
    assert(seq![a].remove(0) =~= none);
    assert(apply_spans(source, spans, usize::MAX as int) == apply_spans(once, seq![a], s2));
    if e1 <= s2 {
        let twice = splice(once, s1, e1, early.1);
        assert(apply_spans(twice, none, s1) == twice);
        assert(apply_spans(once, seq![a], s2) == twice);
        assert(once.take(s1) =~= source.take(s1));
        assert(once.skip(e1) =~= source.subrange(e1, s2) + late.1 + source.skip(e2));
        assert(twice =~= source.take(s1) + early.1 + source.subrange(e1, s2) + late.1 + source.skip(
            e2,
        ));
    } else {
        assert(apply_spans(once, none, s2) == once);
        assert(apply_spans(once, seq![a], s2) == once);
    }
}

proof fn lemma_closest_is_nearest(input: Seq<char>, n: nat, j: int)
    requires
        1 <= n <= spec_all_rule_ids().len(),
        0 <= j < n,
    ensures
        closest_index(input, n) < n,
        distance_to(input, spec_all_rule_ids()[closest_index(input, n) as int]) <= distance_to(
            input,
            spec_all_rule_ids()[j],
        ),
    decreases n,
{
    if n > 1 {
        if j < n - 1 {
            lemma_closest_is_nearest(input, (n - 1) as nat, j);
        } else {
            lemma_closest_is_nearest(input, (n - 1) as nat, 0);
        }
    }
}

proof fn lemma_closest_is_first_nearest(input: Seq<char>, n: nat, j: int)
    requires
        1 <= n <= spec_all_rule_ids().len(),
        0 <= j < closest_index(input, n),
    ensures
        distance_to(input, spec_all_rule_ids()[j]) > distance_to(
            input,
            spec_all_rule_ids()[closest_index(input, n) as int],
        ),
    decreases n,
{
    if n > 1 {
        let best = closest_index(input, (n - 1) as nat);
        if closest_index(input, n) == n - 1 {
            if j < best {
                lemma_closest_is_first_nearest(input, (n - 1) as nat, j);
            } else {
                lemma_closest_is_nearest(input, (n - 1) as nat, j);
            }
        } else {
            lemma_closest_is_first_nearest(input, (n - 1) as nat, j);
        }
    }
}

/// A suggestion is the first rule id, in the order of every rule id, at the least distance:
/// each rule id before it is farther from what was typed.
pub proof fn law_suggestion_is_the_first_nearest(input: Seq<char>, id: RuleId, other: RuleId)
    requires
        spec_closest_rule_id(input) == Some(id),
        other.spec_index() < id.spec_index(),
    ensures
        distance_to(input, other) > distance_to(input, id),
{
    let all = spec_all_rule_ids();
    lemma_all_rule_ids_index(id);
    lemma_all_rule_ids_index(other);
    lemma_closest_is_nearest(input, all.len(), 0);
    let c = closest_index(input, all.len()) as int;
    assert(all[c] == id);
    if c != id.spec_index() {
        lemma_rule_index_unique(id, c);
    }
    lemma_closest_is_first_nearest(input, all.len(), other.spec_index());
}

proof fn lemma_rule_index_unique(id: RuleId, c: int)
    requires
        0 <= c < 55,
        spec_all_rule_ids()[c] == id,
    ensures
        c == id.spec_index(),
{
    lemma_all_rule_ids_index(spec_all_rule_ids()[c]);
}

/// No rule id is suggested exactly when every rule id is farther from what was typed than the
/// suggestion threshold.
pub proof fn law_no_suggestion_when_all_are_far(input: Seq<char>)
    ensures
        spec_closest_rule_id(input) is None <==> forall|id: RuleId|
            #[trigger] distance_to(input, id) > suggest_threshold(input.len()),
{
    let all = spec_all_rule_ids();
    lemma_closest_is_nearest(input, all.len(), 0);
    let best = all[closest_index(input, all.len()) as int];
    if spec_closest_rule_id(input) is None {
        assert forall|id: RuleId| #[trigger] distance_to(input, id) > suggest_threshold(input.len()) by {
            lemma_all_rule_ids_index(id);
            lemma_closest_is_nearest(input, all.len(), id.spec_index());
        }
    } else {
        assert(distance_to(input, best) <= suggest_threshold(input.len()));
    }
}

/// A "did you mean" suggestion for a mistyped rule id is a rule id nearest to what was typed,
/// and at most three edits (and at most half the input's length, but at least one) away.
pub proof fn law_suggestion_is_a_nearest_rule(input: Seq<char>, id: RuleId, other: RuleId)
    requires
        spec_closest_rule_id(input) == Some(id),
    ensures
        distance_to(input, id) <= distance_to(input, other),
        distance_to(input, id) <= suggest_threshold(input.len()) <= 3,
{
    lemma_all_rule_ids_index(other);
    lemma_closest_is_nearest(input, spec_all_rule_ids().len(), other.spec_index());
}

proof fn lemma_block_after_quiet(lines: Seq<Seq<char>>, n: int)
    requires
        forall|i: int| 0 <= i < lines.len() ==> spec_parse_directive(#[trigger] lines[i]) is None,
        n <= lines.len(),
    ensures
        block_after(lines, n).0 == false,
        block_after(lines, n).1 == Set::<Seq<char>>::empty(),
    decreases n,
{
    if n > 0 {
        lemma_block_after_quiet(lines, n - 1);
        assert(spec_parse_directive(lines[n - 1]) is None);
    }
}

/// A document without disable comments suppresses nothing.
pub proof fn law_no_directives_no_suppression(source: Seq<char>, rule: Seq<char>, line: int)
    requires
        forall|i: int|
            0 <= i < spec_lines(source).len() ==> spec_parse_directive(#[trigger] spec_lines(source)[i]) is None,
    ensures
        !line_suppressed(source, rule, line),
{
    let ls = spec_lines(source);
    let i = line - 1;
    if 0 <= i < ls.len() {
        lemma_block_after_quiet(ls, i + 1);
    }
    if 1 <= i <= ls.len() {
        assert(spec_parse_directive(ls[i - 1]) is None);
    }
    if 0 <= i < ls.len() {
        assert(spec_parse_directive(ls[i]) is None);
    }
}

/// A `disable-line` directive suppresses the rules it selects on its own line.
pub proof fn law_disable_line_suppresses_its_line(source: Seq<char>, rule: Seq<char>, line: int)
    requires
        1 <= line <= spec_lines(source).len(),
        names_rule(spec_parse_directive(spec_lines(source)[line - 1]), DirectiveKind::DisableLine, rule),
    ensures
        line_suppressed(source, rule, line),
{
}

/// A `disable-next-line` directive suppresses the rules it selects on the line after it.
pub proof fn law_disable_next_line_suppresses_the_next_line(source: Seq<char>, rule: Seq<char>, line: int)
    requires
        1 <= line <= spec_lines(source).len(),
        names_rule(
            spec_parse_directive(spec_lines(source)[line - 1]),
            DirectiveKind::DisableNextLine,
            rule,
        ),
    ensures
        line_suppressed(source, rule, line + 1),
{
}

/// A `disable-line` or `disable-next-line` directive leaves the disabled rules as they were, so
/// it reaches no line beyond its own or the next.
pub proof fn law_line_directives_leave_the_block_state(lines: Seq<Seq<char>>, n: int)
    requires
        1 <= n <= lines.len(),
        spec_parse_directive(lines[n - 1]) matches Some((k, rs)) && (k == DirectiveKind::DisableLine
            || k == DirectiveKind::DisableNextLine),
    ensures
        block_after(lines, n) == block_after(lines, n - 1),
{
}

proof fn lemma_disabled_until_enable(lines: Seq<Seq<char>>, rule: Seq<char>, at: int, n: int)
    requires
        1 <= at <= n <= lines.len(),
        names_rule(spec_parse_directive(lines[at - 1]), DirectiveKind::Disable, rule),
        forall|k: int|
            at < k <= n ==> !names_rule(
                spec_parse_directive(#[trigger] lines[k - 1]),
                DirectiveKind::Enable,
                rule,
            ),
    ensures
        block_after(lines, n).0 || block_after(lines, n).1.contains(rule),
    decreases n,
{
    if n > at {
        lemma_disabled_until_enable(lines, rule, at, n - 1);
        assert(!names_rule(spec_parse_directive(lines[n - 1]), DirectiveKind::Enable, rule));
    }
}

/// A `disable` directive suppresses the rules it selects (every rule when it names none) from
/// its own line onward, until an `enable` that selects the rule.
pub proof fn law_disable_holds_until_enable(source: Seq<char>, rule: Seq<char>, at: int, line: int)
    requires
        1 <= at <= line <= spec_lines(source).len(),
        names_rule(spec_parse_directive(spec_lines(source)[at - 1]), DirectiveKind::Disable, rule),
        forall|k: int|
            at < k <= line ==> !names_rule(
                spec_parse_directive(#[trigger] spec_lines(source)[k - 1]),
                DirectiveKind::Enable,
                rule,
            ),
    ensures
        line_suppressed(source, rule, line),
{
    lemma_disabled_until_enable(spec_lines(source), rule, at, line);
}

proof fn lemma_enabled_until_disable(lines: Seq<Seq<char>>, rule: Seq<char>, at: int, n: int)
    requires
        1 <= at <= n <= lines.len(),
        !block_after(lines, at).0,
        !block_after(lines, at).1.contains(rule),
        forall|k: int|
            at < k <= n ==> !names_rule(
                spec_parse_directive(#[trigger] lines[k - 1]),
                DirectiveKind::Disable,
                rule,
            ),
    ensures
        !block_after(lines, n).0,
        !block_after(lines, n).1.contains(rule),
    decreases n,
{
    if n > at {
        lemma_enabled_until_disable(lines, rule, at, n - 1);
        assert(!names_rule(spec_parse_directive(lines[n - 1]), DirectiveKind::Disable, rule));
    }
}

/// Whether `d` is a directive that names rules rather than selecting every rule.
pub open spec fn names_some(d: Option<(DirectiveKind, Seq<Seq<char>>)>) -> bool {
    d matches Some((k, rs)) && rs.len() > 0
}

/// Whether `d` disables every rule.
pub open spec fn disables_all(d: Option<(DirectiveKind, Seq<Seq<char>>)>) -> bool {
    d matches Some((k, rs)) && k == DirectiveKind::Disable && rs.len() == 0
}

proof fn lemma_not_all_disabled(lines: Seq<Seq<char>>, n: int)
    requires
        0 <= n <= lines.len(),
        forall|k: int| 1 <= k <= n ==> !disables_all(spec_parse_directive(#[trigger] lines[k - 1])),
    ensures
        !block_after(lines, n).0,
    decreases n,
{
    if n > 0 {
        lemma_not_all_disabled(lines, n - 1);
        assert(!disables_all(spec_parse_directive(lines[n - 1])));
    }
}

/// A finding of `rule` on `line`, below an `enable` that selects the rule with no `disable`
/// that selects it in between, is kept, unless a `disable-line` on its line or a
/// `disable-next-line` just above suppresses it, or (for an `enable` that names rules) a
/// `disable` of every rule before the `enable` is still in force.
pub proof fn law_enable_ends_the_disable(source: Seq<char>, rule: Seq<char>, at: int, line: int)
    requires
        1 <= at <= line <= spec_lines(source).len(),
        names_rule(spec_parse_directive(spec_lines(source)[at - 1]), DirectiveKind::Enable, rule),
        names_some(spec_parse_directive(spec_lines(source)[at - 1])) ==> forall|k: int|
            1 <= k < at ==> !disables_all(spec_parse_directive(#[trigger] spec_lines(source)[k - 1])),
        forall|k: int|
            at < k <= line ==> !names_rule(
                spec_parse_directive(#[trigger] spec_lines(source)[k - 1]),
                DirectiveKind::Disable,
                rule,
            ),
        !names_rule(spec_parse_directive(spec_lines(source)[line - 1]), DirectiveKind::DisableLine, rule),
        line >= 2 ==> !names_rule(
            spec_parse_directive(spec_lines(source)[line - 2]),
            DirectiveKind::DisableNextLine,
            rule,
        ),
    ensures
        !line_suppressed(source, rule, line),
{
    let ls = spec_lines(source);
    let d = spec_parse_directive(ls[at - 1]);
    if names_some(d) {
        lemma_not_all_disabled(ls, at - 1);
    }
    lemma_enabled_until_disable(ls, rule, at, line);
}

/// Whether the report items of `vs` come in position order.
pub open spec fn items_sorted(vs: Seq<ItemView>) -> bool {
    forall|i: int, j: int| 0 <= i < j < vs.len() ==> key_le(vs[i].range, vs[j].range)
}

proof fn lemma_item_insert_pos_facts(o: Seq<ItemView>, k: Option<Range>)
    ensures
        item_insert_pos(o, k) <= o.len(),
        forall|i: int| 0 <= i < item_insert_pos(o, k) ==> key_le(o[i].range, k),
        item_insert_pos(o, k) < o.len() ==> !key_le(o[item_insert_pos(o, k) as int].range, k),
    decreases o.len(),
{
    if o.len() > 0 && key_le(o[0].range, k) {
        let t = o.drop_first();
        lemma_item_insert_pos_facts(t, k);
        assert forall|i: int| 0 <= i < item_insert_pos(o, k) implies key_le(o[i].range, k) by {
            if i > 0 {
                assert(o[i] == t[i - 1]);
            }
        }
        if item_insert_pos(o, k) < o.len() {
            assert(o[item_insert_pos(o, k) as int] == t[item_insert_pos(t, k) as int]);
        }
    }
}

proof fn lemma_sort_items_sorted(vs: Seq<ItemView>)
    ensures
        items_sorted(sort_items(vs)),
    decreases vs.len(),
{
    if vs.len() > 0 {
        let o = sort_items(vs.drop_last());
        lemma_sort_items_sorted(vs.drop_last());
        let x = vs.last();
        lemma_item_insert_pos_facts(o, x.range);
        let p = item_insert_pos(o, x.range) as int;
        let r = o.insert(p, x);
        assert forall|i: int, j: int| 0 <= i < j < r.len() implies key_le(r[i].range, r[j].range) by {
            if j < p {
                assert(r[i] == o[i] && r[j] == o[j]);
            } else if j == p {
                assert(r[i] == o[i]);
            } else if i < p {
                assert(r[i] == o[i] && r[j] == o[j - 1]);
                lemma_key_le_total(o[p].range, x.range);
                lemma_key_le_transitive(o[i].range, x.range, o[p].range);
                if j - 1 > p {
                    lemma_key_le_transitive(o[i].range, o[p].range, o[j - 1].range);
                }
            } else if i == p {
                assert(r[j] == o[j - 1]);
                lemma_key_le_total(o[p].range, x.range);
                if j - 1 > p {
                    lemma_key_le_transitive(x.range, o[p].range, o[j - 1].range);
                }
            } else {
                assert(r[i] == o[i - 1] && r[j] == o[j - 1]);
            }
        }
    }
}

proof fn lemma_unsuppressed_sorted(vs: Seq<ItemView>, source: Seq<char>)
    requires
        items_sorted(vs),
    ensures
        items_sorted(unsuppressed(vs, source)),
        forall|i: int|
            0 <= i < unsuppressed(vs, source).len() ==> exists|j: int|
                0 <= j < vs.len() && #[trigger] unsuppressed(vs, source)[i] == vs[j],
    decreases vs.len(),
{
    if vs.len() > 0 {
        let d = vs.drop_last();
        assert(items_sorted(d)) by {
            assert forall|i: int, j: int| 0 <= i < j < d.len() implies key_le(d[i].range, d[j].range) by {
                assert(d[i] == vs[i] && d[j] == vs[j]);
            }
        }
        lemma_unsuppressed_sorted(d, source);
        let r = unsuppressed(d, source);
        let u = unsuppressed(vs, source);
        assert forall|i: int| 0 <= i < u.len() implies exists|j: int| 0 <= j < vs.len() && #[trigger] u[i] == vs[j] by {
            if i < r.len() {
                assert(u[i] == r[i]);
                let j = choose|j: int| 0 <= j < d.len() && r[i] == d[j];
                assert(vs[j] == d[j]);
            } else {
                assert(u[i] == vs[vs.len() - 1]);
            }
        }
        assert forall|i: int, j: int| 0 <= i < j < u.len() implies key_le(u[i].range, u[j].range) by {
            if j < r.len() {
                assert(u[i] == r[i] && u[j] == r[j]);
                assert(key_le(r[i].range, r[j].range));
            } else {
                assert(u[i] == r[i]);
                let k = choose|k: int| 0 <= k < d.len() && r[i] == d[k];
                assert(vs[k] == d[k]);
                assert(u[j] == vs[vs.len() - 1]);
                assert(k < vs.len() - 1);
                assert(key_le(vs[k].range, vs[vs.len() - 1].range));
            }
        }
    }
}

/// `lint`'s merged report comes sorted by position: sorting the built-in and custom findings
/// together, then dropping the suppressed ones, keeps the order.
pub proof fn law_merge_sorted(builtin: Seq<DiagView>, custom: Seq<crate::custom_rules::CustomDiagnostic>, source: Seq<char>)
    ensures
        items_sorted(spec_merge(builtin, custom, source)),
{
    let all = builtin.map_values(|d: DiagView| crate::report_item::builtin_view(d)) + custom.map_values(
        |d: crate::custom_rules::CustomDiagnostic| crate::report_item::custom_view(d),
    );
    lemma_sort_items_sorted(all);
    lemma_unsuppressed_sorted(sort_items(all), source);
}

/// A rule's own name names that rule and no other, so `RuleId::parse(id.as_str())` gives
/// back `Ok(id)`.
pub proof fn law_name_round_trip(id: RuleId)
    ensures
        crate::config::named_rule(id.spec_name()) == Some(id),
        forall|x: RuleId| x.spec_name() == id.spec_name() ==> x == id,
{
    assert(exists|x: RuleId| x.spec_name() == id.spec_name());
    let c = choose|x: RuleId| x.spec_name() == id.spec_name();
    crate::message::lemma_rule_names_distinct(c, id);
    assert forall|x: RuleId| x.spec_name() == id.spec_name() implies x == id by {
        crate::message::lemma_rule_names_distinct(x, id);
    }
}

/// What the cache holds for a key after `set` is what was set: a lookup with the same content
/// hash gives the findings back.
pub proof fn law_cache_set_then_get(
    m: Map<Seq<char>, (u64, Seq<(ItemView, Option<Seq<char>>)>)>,
    key: Seq<char>,
    hash: u64,
    kept: Seq<(ItemView, Option<Seq<char>>)>,
)
    ensures
        lookup(m.insert(key, (hash, kept)), key, hash) == Some(kept),
{
}

/// After `set`, a lookup of the same key with another content hash misses.
pub proof fn law_cache_changed_content_misses(
    m: Map<Seq<char>, (u64, Seq<(ItemView, Option<Seq<char>>)>)>,
    key: Seq<char>,
    hash: u64,
    other: u64,
    kept: Seq<(ItemView, Option<Seq<char>>)>,
)
    requires
        other != hash,
    ensures
        lookup(m.insert(key, (hash, kept)), key, other) is None,
{
}

/// `set` for one key leaves every other key's lookup as it was.
pub proof fn law_cache_other_keys_untouched(
    m: Map<Seq<char>, (u64, Seq<(ItemView, Option<Seq<char>>)>)>,
    key: Seq<char>,
    other_key: Seq<char>,
    hash: u64,
    any_hash: u64,
    kept: Seq<(ItemView, Option<Seq<char>>)>,
)
    requires
        other_key != key,
    ensures
        lookup(m.insert(key, (hash, kept)), other_key, any_hash) == lookup(m, other_key, any_hash),
{
}

/// The same content always hashes the same, so a file whose content did not change finds what
/// was cached for it.
pub proof fn law_same_content_same_hash(a: &str, b: &str)
    requires
        a@ == b@,
    ensures
        content_hash(a) == content_hash(b),
{
}

/// Reporting at the lowest severity keeps every finding.
pub proof fn law_info_reports_everything(items: Seq<ItemView>)
    ensures
        at_or_above(items, Severity::Info) == items,
    decreases items.len(),
{
    if items.len() > 0 {
        law_info_reports_everything(items.drop_last());
        assert(items.drop_last().push(items.last()) =~= items);
    }
}

/// Filtering by severity only drops findings: what is reported is a subsequence of what was
/// found, each at or above the threshold.
pub proof fn law_filtered_findings_meet_the_threshold(items: Seq<ItemView>, min: Severity)
    ensures
        at_or_above(items, min).len() <= items.len(),
        forall|i: int| 0 <= i < at_or_above(items, min).len() ==> (#[trigger] at_or_above(items, min)[i]).severity.rank() >= min.rank(),
    decreases items.len(),
{
    if items.len() > 0 {
        law_filtered_findings_meet_the_threshold(items.drop_last(), min);
    }
}

/// An escaped table cell holds no line break.
pub proof fn law_escaped_cell_is_one_line(s: Seq<char>)
    ensures
        !spec_escape_cell(s).contains('\n'),
    decreases s.len(),
{
    if s.len() > 0 {
        law_escaped_cell_is_one_line(s.drop_last());
        let a = spec_escape_cell(s.drop_last());
        let b = escape_piece(s.last());
        assert forall|i: int| 0 <= i < (a + b).len() implies (a + b)[i] != '\n' by {
            if i < a.len() {
                assert((a + b)[i] == a[i]);
            } else {
                assert((a + b)[i] == b[i - a.len()]);
            }
        }
    }
}

/// A generation just started for a document is its current one.
pub proof fn law_bumped_generation_is_current(m: Map<Seq<char>, u64>, uri: Seq<char>, g: u64)
    ensures
        m.insert(uri, g).contains_key(uri) && m.insert(uri, g)[uri] == g,
{
}

/// Once a newer generation starts for a document, an older, different one is no longer
/// current.
pub proof fn law_superseded_generation_is_stale(m: Map<Seq<char>, u64>, uri: Seq<char>, older: u64, newer: u64)
    requires
        older != newer,
    ensures
        !(m.insert(uri, newer).contains_key(uri) && m.insert(uri, newer)[uri] == older),
{
}

/// Generations of different documents do not affect each other.
pub proof fn law_generations_are_per_document(m: Map<Seq<char>, u64>, uri: Seq<char>, other: Seq<char>, g: u64)
    requires
        uri != other,
    ensures
        m.insert(uri, g).contains_key(other) == m.contains_key(other),
        m.contains_key(other) ==> m.insert(uri, g)[other] == m[other],
{
}

/// A forgotten document has no current generation.
pub proof fn law_forgotten_document_has_no_generation(m: Map<Seq<char>, u64>, uri: Seq<char>)
    ensures
        !m.remove(uri).contains_key(uri),
{
}

} // verus!
