//! What the built-in rules report, stated over the document and the source text they read:
//! for each rule, which nodes, headings, lines and characters give a finding (and what that
//! finding is), and that every finding the rule reports is one of those.
use crate::config::LintConfig;
use crate::doc::{DocNode, Document, NodeKind};
use crate::message::{LintMessage, RuleId};
use crate::rules::headings::headings_in_order;
use crate::rules::lines::{
    blank, br_spaces_option, code_blocks_option, in_code_block, line_limit_option, line_range,
    maximum_blanks_option, tab_spaces_option,
};
use crate::rules::document::{spec_single_trailing_newline, trailing_newlines};
use crate::rules::{concat_upto, finding, spaces, spec_check, spec_default_severity};
use crate::text::{is_ws, lemma_count_while_rev_is, spec_lines};
use crate::{DiagView, Range};
use vstd::prelude::*;

verus! {

/// A concatenation holds what any of its parts holds.
proof fn lemma_concat_upto_has(n: int, f: spec_fn(int) -> Seq<DiagView>, k: int, x: DiagView)
    requires
        0 <= k < n,
        f(k).contains(x),
    ensures
        concat_upto(n, f).contains(x),
    decreases n,
{
    let a = concat_upto(n - 1, f);
    let b = f(n - 1);
    if k < n - 1 {
        lemma_concat_upto_has(n - 1, f, k, x);
        let i = choose|i: int| 0 <= i < a.len() && a[i] == x;
        assert((a + b)[i] == x);
    } else {
        let i = choose|i: int| 0 <= i < b.len() && b[i] == x;
        assert((a + b)[a.len() + i] == x);
    }
}

/// What a concatenation holds, one of its parts holds.
proof fn lemma_concat_upto_from(n: int, f: spec_fn(int) -> Seq<DiagView>, x: DiagView)
    requires
        concat_upto(n, f).contains(x),
    ensures
        exists|k: int| 0 <= k < n && (#[trigger] f(k)).contains(x),
    decreases n,
{
    if n > 0 {
        let a = concat_upto(n - 1, f);
        let b = f(n - 1);
        let i = choose|i: int| 0 <= i < (a + b).len() && (a + b)[i] == x;
        if i < a.len() {
            assert(a[i] == x);
            lemma_concat_upto_from(n - 1, f, x);
        } else {
            assert(b[i - a.len()] == x);
        }
    }
}

/// The `k`-th heading of `nodes` in source order.
pub open spec fn heading_at(nodes: Seq<DocNode>, k: int) -> DocNode {
    nodes[headings_in_order(nodes)[k] as int]
}

/// The number of headings of `nodes`.
pub open spec fn heading_count(nodes: Seq<DocNode>) -> int {
    headings_in_order(nodes).len() as int
}

// ---------------------------------------------------------------------------------------------
// heading_hierarchy_skip

/// The finding for heading `k` going from the level of heading `k - 1` to its own.
pub open spec fn skip_finding(nodes: Seq<DocNode>, k: int) -> DiagView {
    finding(
        LintMessage::HeadingHierarchySkip {
            from: heading_at(nodes, k - 1).depth as u8,
            to: heading_at(nodes, k).depth as u8,
        },
        heading_at(nodes, k).position,
        None,
    )
}

/// A heading more than one level deeper than the heading before it in the source (a jump of
/// two levels or more) is flagged at its position, naming both levels.
pub proof fn law_level_skip_is_flagged(doc: Document, source: Seq<char>, config: LintConfig, k: int)
    requires
        0 < k < heading_count(doc.nodes@),
        heading_at(doc.nodes@, k).depth > heading_at(doc.nodes@, k - 1).depth + 1,
    ensures
        spec_check(RuleId::HeadingHierarchySkip, doc, source, config).contains(skip_finding(doc.nodes@, k)),
{
    let nodes = doc.nodes@;
    let order = headings_in_order(nodes);
    let f = crate::rules::headings::level_skip_each(nodes, order);
    assert(f(k) =~= seq![skip_finding(nodes, k)]);
    assert(f(k)[0] == skip_finding(nodes, k));
    lemma_concat_upto_has(order.len() as int, f, k, skip_finding(nodes, k));
}

/// Every `heading_hierarchy_skip` finding is that of a heading more than one level deeper
/// than the heading before it.
pub proof fn law_level_skip_findings_are_skips(doc: Document, source: Seq<char>, config: LintConfig, i: int)
    requires
        0 <= i < spec_check(RuleId::HeadingHierarchySkip, doc, source, config).len(),
    ensures
        exists|k: int|
            0 < k < heading_count(doc.nodes@) && heading_at(doc.nodes@, k).depth > heading_at(
                doc.nodes@,
                k - 1,
            ).depth + 1 && spec_check(RuleId::HeadingHierarchySkip, doc, source, config)[i]
                == #[trigger] skip_finding(doc.nodes@, k),
{
    let nodes = doc.nodes@;
    let order = headings_in_order(nodes);
    let f = crate::rules::headings::level_skip_each(nodes, order);
    let r = spec_check(RuleId::HeadingHierarchySkip, doc, source, config);
    assert(r.contains(r[i]));
    lemma_concat_upto_from(order.len() as int, f, r[i]);
    let k = choose|k: int| 0 <= k < order.len() && (#[trigger] f(k)).contains(r[i]);
    assert(f(k).len() > 0);
    assert(r[i] == skip_finding(nodes, k));
}

// ---------------------------------------------------------------------------------------------
// no_duplicate_heading

/// The finding for heading `k` repeating an earlier heading's text.
pub open spec fn duplicate_of(nodes: Seq<DocNode>, k: int) -> DiagView {
    DiagView {
        rule: RuleId::NoDuplicateHeading,
        text: "heading `"@ + heading_at(nodes, k).value@ + "` duplicates an earlier heading"@,
        severity: spec_default_severity(RuleId::NoDuplicateHeading),
        range: heading_at(nodes, k).position,
        fix: None,
    }
}

/// A heading whose text an earlier heading (any earlier one, the one just before included)
/// already has is flagged at its position.
pub proof fn law_repeated_heading_is_flagged(doc: Document, source: Seq<char>, config: LintConfig, m: int, k: int)
    requires
        0 <= m < k < heading_count(doc.nodes@),
        heading_at(doc.nodes@, m).value@ == heading_at(doc.nodes@, k).value@,
    ensures
        spec_check(RuleId::NoDuplicateHeading, doc, source, config).contains(duplicate_of(doc.nodes@, k)),
{
    let nodes = doc.nodes@;
    let order = headings_in_order(nodes);
    let f = crate::rules::headings::duplicate_each(nodes, order);
    assert(nodes[order[m] as int].value@ == nodes[order[k] as int].value@);
    assert(crate::rules::headings::seen_before(nodes, order, k));
    assert(f(k) =~= seq![duplicate_of(nodes, k)]);
    assert(f(k)[0] == duplicate_of(nodes, k));
    lemma_concat_upto_has(order.len() as int, f, k, duplicate_of(nodes, k));
}

/// Every `no_duplicate_heading` finding is that of a heading whose text an earlier heading
/// has.
pub proof fn law_duplicate_findings_repeat_a_heading(doc: Document, source: Seq<char>, config: LintConfig, i: int)
    requires
        0 <= i < spec_check(RuleId::NoDuplicateHeading, doc, source, config).len(),
    ensures
        exists|m: int, k: int|
            #![trigger heading_at(doc.nodes@, m), duplicate_of(doc.nodes@, k)]
            0 <= m < k < heading_count(doc.nodes@) && heading_at(doc.nodes@, m).value@ == heading_at(
                doc.nodes@,
                k,
            ).value@ && spec_check(RuleId::NoDuplicateHeading, doc, source, config)[i]
                == duplicate_of(doc.nodes@, k),
{
    let nodes = doc.nodes@;
    let order = headings_in_order(nodes);
    let f = crate::rules::headings::duplicate_each(nodes, order);
    let r = spec_check(RuleId::NoDuplicateHeading, doc, source, config);
    assert(r.contains(r[i]));
    lemma_concat_upto_from(order.len() as int, f, r[i]);
    let k = choose|k: int| 0 <= k < order.len() && (#[trigger] f(k)).contains(r[i]);
    assert(f(k).len() > 0);
    assert(crate::rules::headings::seen_before(nodes, order, k));
    let m = choose|m: int| 0 <= m < k && (#[trigger] nodes[order[m] as int]).value@ == nodes[order[k] as int].value@;
    assert(heading_at(nodes, m).value@ == heading_at(nodes, k).value@);
    assert(r[i] == duplicate_of(nodes, k));
}

// ---------------------------------------------------------------------------------------------
// no_trailing_spaces

/// Whether `c` is a space or a tab.
pub open spec fn blank_char(c: char) -> bool {
    c == ' ' || c == '\t'
}

/// Whether the last `t` characters of `line` are spaces and tabs and the one before them (if
/// any) is neither: `t` is the length of the line's trailing whitespace.
pub open spec fn trailing_run(line: Seq<char>, t: int) -> bool {
    &&& 0 <= t <= line.len()
    &&& forall|j: int| line.len() - t <= j < line.len() ==> blank_char(#[trigger] line[j])
    &&& t == line.len() || !blank_char(line[line.len() - t - 1])
}

/// The finding for line `n` (1-based), `line`, with `t` trailing spaces and tabs: their span,
/// fixed by deleting it.
pub open spec fn trailing_finding(n: int, line: Seq<char>, t: int) -> DiagView {
    let range = line_range(n, line.len() - t + 1, line.len() + 1int);
    finding(LintMessage::NoTrailingSpaces, Some(range), Some((range, Seq::empty())))
}

proof fn lemma_trailing_count(line: Seq<char>, t: int)
    requires
        trailing_run(line, t),
    ensures
        crate::text::count_while_rev(line, crate::text::CharClass::SpaceOrTab) == t,
{
    assert forall|j: int| line.len() - t <= j < line.len() implies crate::text::in_class(
        #[trigger] line[j],
        crate::text::CharClass::SpaceOrTab,
    ) by {
        assert(blank_char(line[j]));
    }
    lemma_count_while_rev_is(line, crate::text::CharClass::SpaceOrTab, t);
}

/// A line ending in spaces or tabs (any mix, a lone tab included) is flagged, over the whole
/// trailing run, unless the run is exactly as long as the `br_spaces` option (a hard break).
pub proof fn law_trailing_whitespace_is_flagged(doc: Document, source: Seq<char>, config: LintConfig, j: int, t: int)
    requires
        0 <= j < spec_lines(source).len(),
        trailing_run(spec_lines(source)[j], t),
        t > 0,
        t != br_spaces_option(config),
    ensures
        spec_check(RuleId::NoTrailingSpaces, doc, source, config).contains(
            trailing_finding(j + 1, spec_lines(source)[j], t),
        ),
{
    let ls = spec_lines(source);
    let f = crate::rules::lines::trailing_spaces_each(ls, br_spaces_option(config));
    lemma_trailing_count(ls[j], t);
    let x = trailing_finding(j + 1, ls[j], t);
    assert(f(j) =~= seq![x]);
    assert(f(j)[0] == x);
    lemma_concat_upto_has(ls.len() as int, f, j, x);
}

/// Every `no_trailing_spaces` finding is that of a line whose trailing spaces and tabs are
/// not exactly `br_spaces` long.
pub proof fn law_trailing_findings_are_trailing_whitespace(doc: Document, source: Seq<char>, config: LintConfig, i: int)
    requires
        0 <= i < spec_check(RuleId::NoTrailingSpaces, doc, source, config).len(),
    ensures
        exists|j: int, t: int|
            0 <= j < spec_lines(source).len() && trailing_run(spec_lines(source)[j], t) && t > 0 && t
                != br_spaces_option(config) && spec_check(RuleId::NoTrailingSpaces, doc, source, config)[i]
                == #[trigger] trailing_finding(j + 1, spec_lines(source)[j], t),
{
    let ls = spec_lines(source);
    let f = crate::rules::lines::trailing_spaces_each(ls, br_spaces_option(config));
    let r = spec_check(RuleId::NoTrailingSpaces, doc, source, config);
    assert(r.contains(r[i]));
    lemma_concat_upto_from(ls.len() as int, f, r[i]);
    let j = choose|j: int| 0 <= j < ls.len() && (#[trigger] f(j)).contains(r[i]);
    let line = ls[j];
    let t = crate::text::count_while_rev(line, crate::text::CharClass::SpaceOrTab) as int;
    crate::text::lemma_count_while_rev_bounds(line, crate::text::CharClass::SpaceOrTab);
    assert(f(j).len() > 0);
    assert(trailing_run(line, t)) by {
        lemma_rev_stop_class(line, crate::text::CharClass::SpaceOrTab);
        if t < line.len() {
            assert(!crate::text::in_class(line[line.len() - t - 1], crate::text::CharClass::SpaceOrTab));
        }
        assert forall|q: int| line.len() - t <= q < line.len() implies blank_char(#[trigger] line[q]) by {
            assert(crate::text::in_class(line[q], crate::text::CharClass::SpaceOrTab));
        }
    }
    assert(r[i] == trailing_finding(j + 1, line, t));
}

// ---------------------------------------------------------------------------------------------
// no_hard_tabs

/// The finding for the tab at 0-based column `c` of line `n` (1-based): fixed by `width`
/// spaces.
pub open spec fn tab_finding(n: int, c: int, width: nat) -> DiagView {
    let range = line_range(n, c + 1, c + 2);
    finding(LintMessage::NoHardTabs, Some(range), Some((range, spaces(width))))
}

/// Every tab of every line is flagged, in whatever column it stands (the first included).
pub proof fn law_every_tab_is_flagged(doc: Document, source: Seq<char>, config: LintConfig, j: int, c: int)
    requires
        0 <= j < spec_lines(source).len(),
        0 <= c < spec_lines(source)[j].len(),
        spec_lines(source)[j][c] == '\t',
    ensures
        spec_check(RuleId::NoHardTabs, doc, source, config).contains(
            tab_finding(j + 1, c, tab_spaces_option(config)),
        ),
{
    let ls = spec_lines(source);
    let w = tab_spaces_option(config);
    let x = tab_finding(j + 1, c, w);
    let g = crate::rules::lines::hard_tab_each_char(j + 1, ls[j], w);
    assert(g(c) =~= seq![x]);
    assert(g(c)[0] == x);
    lemma_concat_upto_has(ls[j].len() as int, g, c, x);
    let f = crate::rules::lines::hard_tabs_each(ls, w);
    assert(f(j) == concat_upto(ls[j].len() as int, g));
    lemma_concat_upto_has(ls.len() as int, f, j, x);
}

/// Every `no_hard_tabs` finding is that of a tab of the source.
pub proof fn law_tab_findings_are_tabs(doc: Document, source: Seq<char>, config: LintConfig, i: int)
    requires
        0 <= i < spec_check(RuleId::NoHardTabs, doc, source, config).len(),
    ensures
        exists|j: int, c: int|
            0 <= j < spec_lines(source).len() && 0 <= c < spec_lines(source)[j].len()
                && spec_lines(source)[j][c] == '\t' && spec_check(RuleId::NoHardTabs, doc, source, config)[i]
                == #[trigger] tab_finding(j + 1, c, tab_spaces_option(config)),
{
    let ls = spec_lines(source);
    let w = tab_spaces_option(config);
    let f = crate::rules::lines::hard_tabs_each(ls, w);
    let r = spec_check(RuleId::NoHardTabs, doc, source, config);
    assert(r.contains(r[i]));
    lemma_concat_upto_from(ls.len() as int, f, r[i]);
    let j = choose|j: int| 0 <= j < ls.len() && (#[trigger] f(j)).contains(r[i]);
    let g = crate::rules::lines::hard_tab_each_char(j + 1, ls[j], w);
    assert(f(j) == concat_upto(ls[j].len() as int, g));
    lemma_concat_upto_from(ls[j].len() as int, g, r[i]);
    let c = choose|c: int| 0 <= c < ls[j].len() && (#[trigger] g(c)).contains(r[i]);
    assert(g(c).len() > 0);
    assert(r[i] == tab_finding(j + 1, c, w));
}

// ---------------------------------------------------------------------------------------------
// single_trailing_newline

/// Whether `s` ends with exactly one newline: its last character is one, and the one before
/// it (if any) is not.
pub open spec fn ends_with_one_newline(s: Seq<char>) -> bool {
    s.len() > 0 && s.last() == '\n' && (s.len() == 1 || s[s.len() - 2] != '\n')
}

/// A non-empty file has a `single_trailing_newline` finding exactly when it does not end with
/// exactly one newline: a missing final newline and two or more trailing newlines are both
/// flagged, with one finding.
pub proof fn law_trailing_newline_flagged_iff_not_exactly_one(
    doc: Document,
    source: Seq<char>,
    config: LintConfig,
)
    requires
        source.len() > 0,
    ensures
        (spec_check(RuleId::SingleTrailingNewline, doc, source, config).len() == 0) == ends_with_one_newline(source),
        spec_check(RuleId::SingleTrailingNewline, doc, source, config).len() <= 1,
{
    let k = trailing_newlines(source);
    assert(spec_check(RuleId::SingleTrailingNewline, doc, source, config) == spec_single_trailing_newline(source));
    assert(spec_lines(source).len() > 0);
    if source.last() == '\n' {
        let d = source.drop_last();
        assert(k == 1 + trailing_newlines(d));
        if source.len() >= 2 {
            assert(d.last() == source[source.len() - 2]);
            if d.last() == '\n' {
                assert(trailing_newlines(d) == 1 + trailing_newlines(d.drop_last()));
                assert(k >= 2);
            } else {
                assert(trailing_newlines(d) == 0);
                assert(k == 1);
            }
        } else {
            assert(d.len() == 0);
            assert(trailing_newlines(d) == 0);
            assert(k == 1);
        }
    } else {
        assert(k == 0);
    }
}

/// The newlines that `trailing_newlines` counts are the last characters of `s`, and the
/// character before them is not one.
proof fn lemma_trailing_newline_chars(s: Seq<char>)
    ensures
        trailing_newlines(s) <= s.len(),
        forall|j: int| s.len() - trailing_newlines(s) <= j < s.len() ==> s[j] == '\n',
        trailing_newlines(s) < s.len() ==> s[s.len() - trailing_newlines(s) - 1] != '\n',
    decreases s.len(),
{
    if s.len() > 0 && s.last() == '\n' {
        let d = s.drop_last();
        lemma_trailing_newline_chars(d);
        assert forall|j: int| s.len() - trailing_newlines(s) <= j < s.len() implies s[j] == '\n' by {
            if j < s.len() - 1 {
                assert(s[j] == d[j]);
            }
        }
    }
}

/// For a text ending in a run of `k` newlines: it has at least `k` lines (exactly `k` when it
/// is nothing but that run), the start of the line after its last one is its end, and the line
/// `k - 1` before that starts just after the first newline of the run.
proof fn lemma_run_lines(s: Seq<char>, k: int)
    requires
        1 <= k <= s.len(),
        forall|j: int| s.len() - k <= j < s.len() ==> s[j] == '\n',
        k == s.len() || s[s.len() - k - 1] != '\n',
    ensures
        k <= spec_lines(s).len() <= s.len(),
        k == s.len() ==> spec_lines(s).len() == k,
        crate::text::spec_offset(s, spec_lines(s).len() as int + 1, 1) == Some(s.len() as int),
        crate::text::spec_offset(s, spec_lines(s).len() as int + 2 - k, 1) == Some(s.len() - k + 1),
    decreases s.len(),
{
    let nl = crate::text::CharClass::NotNewline;
    let q = crate::text::count_while(s, nl) as int;
    crate::text::lemma_count_while_bounds(s, nl);
    if q >= s.len() {
        assert(crate::text::in_class(s[s.len() - 1], nl));
    }
    assert(s[q] == '\n');
    let rest = s.skip(q + 1);
    assert(spec_lines(s) == seq![crate::text::strip_cr(s.take(q))] + spec_lines(rest));
    let lr = spec_lines(rest).len() as int;
    if rest.len() == 0 {
        if k >= 2 {
            assert(s[s.len() - 2] == '\n');
            assert(crate::text::in_class(s[s.len() - 2], nl));
        }
        assert(crate::text::count_while(rest, nl) == 0);
        assert(crate::text::spec_offset(rest, 1, 1) == Some(0int));
    } else if q < s.len() - k {
        assert forall|j: int| rest.len() - k <= j < rest.len() implies rest[j] == '\n' by {
            assert(rest[j] == s[j + q + 1]);
        }
        assert(rest[rest.len() - k - 1] == s[s.len() - k - 1]);
        lemma_run_lines(rest, k);
        assert(crate::text::spec_offset(s, lr + 2, 1) == Some(rest.len() + q + 1));
        assert(crate::text::spec_offset(s, lr + 3 - k, 1) == Some(rest.len() - k + 1 + q + 1));
    } else {
        if q > s.len() - k {
            assert(crate::text::in_class(s[s.len() - k], nl));
        }
        assert forall|j: int| 0 <= j < rest.len() implies rest[j] == '\n' by {
            assert(rest[j] == s[j + q + 1]);
        }
        lemma_run_lines(rest, k - 1);
        assert(crate::text::count_while(rest, nl) == 0);
        assert(crate::text::spec_offset(rest, 1, 1) == Some(0int));
        assert(crate::text::spec_offset(s, lr + 2, 1) == Some(rest.len() + q + 1));
        assert(crate::text::spec_offset(s, 2, 1) == Some(q + 1));
    }
}

/// A file ending in two or more newlines gets one `single_trailing_newline` finding, and
/// applying its fix leaves the file cut back to its first trailing newline: a prefix of it
/// that ends with exactly one newline, with only newlines removed after it.
pub proof fn law_extra_trailing_newlines_fixed_to_one(doc: Document, source: Seq<char>, config: LintConfig)
    requires
        2 <= source.len() < usize::MAX,
        source[source.len() - 1] == '\n',
        source[source.len() - 2] == '\n',
    ensures
        spec_check(RuleId::SingleTrailingNewline, doc, source, config).len() == 1,
        spec_check(RuleId::SingleTrailingNewline, doc, source, config)[0].fix is Some,
        ({
            let fixed = crate::fix::spec_apply_fixes(
                source,
                seq![spec_check(RuleId::SingleTrailingNewline, doc, source, config)[0].fix.unwrap()],
            );
            &&& ends_with_one_newline(fixed)
            &&& fixed.len() <= source.len()
            &&& fixed == source.take(fixed.len() as int)
            &&& forall|j: int| fixed.len() <= j < source.len() ==> source[j] == '\n'
        }),
{
    law_trailing_newline_flagged_iff_not_exactly_one(doc, source, config);
    let len = source.len() as int;
    let k = trailing_newlines(source) as int;
    let d = source.drop_last();
    assert(d.last() == source[len - 2]);
    assert(trailing_newlines(d) == 1 + trailing_newlines(d.drop_last()));
    assert(k >= 2);
    lemma_trailing_newline_chars(source);
    lemma_run_lines(source, k);
    let n = spec_lines(source).len() as int;
    let r = spec_check(RuleId::SingleTrailingNewline, doc, source, config);
    assert(r == spec_single_trailing_newline(source));
    let fix = r[0].fix.unwrap();
    assert(fix.0.start_line == n + 2 - k);
    assert(fix.0.end_line == n + 1);
    assert(fix.1 == Seq::<char>::empty());
    assert(crate::fix::range_span(source, fix.0) == Some((len - k + 1, len)));
    crate::laws::law_one_fix_replaces_its_span(source, fix, len - k + 1, len);
    let fixed = crate::fix::spec_apply_fixes(source, seq![fix]);
    assert(fixed =~= source.take(len - k + 1));
    if k < len {
        assert(fixed[fixed.len() - 2] == source[len - k - 1]);
    }
}

// ---------------------------------------------------------------------------------------------
// line_length

/// The finding for line `n` (1-based), `line`, being longer than `limit` characters: the
/// characters past the limit.
pub open spec fn long_finding(n: int, line: Seq<char>, limit: nat) -> DiagView {
    finding(
        LintMessage::LineLength { length: line.len() as usize, limit: limit as usize },
        Some(line_range(n, limit + 1int, line.len() + 1int)),
        None,
    )
}

/// Whether line `j` (0-based) is checked by `line_length`: every line is, unless the
/// `code_blocks` option is off and the line lies in a code block.
pub open spec fn length_checked(doc: Document, config: LintConfig, j: int) -> bool {
    code_blocks_option(config) || !in_code_block(doc.nodes@, j + 1)
}

/// Every checked line with more characters than the limit is flagged.
pub proof fn law_long_line_is_flagged(doc: Document, source: Seq<char>, config: LintConfig, j: int)
    requires
        0 <= j < spec_lines(source).len(),
        spec_lines(source)[j].len() > line_limit_option(config),
        length_checked(doc, config, j),
    ensures
        spec_check(RuleId::LineLength, doc, source, config).contains(
            long_finding(j + 1, spec_lines(source)[j], line_limit_option(config)),
        ),
{
    let ls = spec_lines(source);
    let limit = line_limit_option(config);
    let f = crate::rules::lines::long_lines_each(ls, doc.nodes@, limit, code_blocks_option(config));
    let x = long_finding(j + 1, ls[j], limit);
    assert(f(j) =~= seq![x]);
    assert(f(j)[0] == x);
    lemma_concat_upto_has(ls.len() as int, f, j, x);
}

/// Every `line_length` finding is that of a checked line longer than the limit (so a line of
/// exactly the limit is never flagged).
pub proof fn law_long_line_findings_are_long_lines(doc: Document, source: Seq<char>, config: LintConfig, i: int)
    requires
        0 <= i < spec_check(RuleId::LineLength, doc, source, config).len(),
    ensures
        exists|j: int|
            0 <= j < spec_lines(source).len() && spec_lines(source)[j].len() > line_limit_option(config)
                && length_checked(doc, config, j) && spec_check(RuleId::LineLength, doc, source, config)[i]
                == #[trigger] long_finding(j + 1, spec_lines(source)[j], line_limit_option(config)),
{
    let ls = spec_lines(source);
    let limit = line_limit_option(config);
    let f = crate::rules::lines::long_lines_each(ls, doc.nodes@, limit, code_blocks_option(config));
    let r = spec_check(RuleId::LineLength, doc, source, config);
    assert(r.contains(r[i]));
    lemma_concat_upto_from(ls.len() as int, f, r[i]);
    let j = choose|j: int| 0 <= j < ls.len() && (#[trigger] f(j)).contains(r[i]);
    assert(f(j).len() > 0);
    assert(r[i] == long_finding(j + 1, ls[j], limit));
}

// ---------------------------------------------------------------------------------------------
// no_multiple_blanks

/// Whether lines `i .. i + r` (0-based) of `ls` are a whole run of blank lines: all blank,
/// with the lines just before and just after it (where there are any) not blank.
pub open spec fn blank_lines_run(ls: Seq<Seq<char>>, i: int, r: int) -> bool {
    &&& 0 <= i
    &&& 1 <= r
    &&& i + r <= ls.len()
    &&& forall|q: int| i <= q < i + r ==> blank(#[trigger] ls[q])
    &&& i == 0 || !blank(ls[i - 1])
    &&& i + r == ls.len() || !blank(ls[i + r])
}

/// The finding for a run of `r` blank lines from line `i` (0-based): reported at its first
/// line, fixed by deleting the lines beyond the first `maximum`.
pub open spec fn blanks_finding(i: int, r: int, maximum: nat) -> DiagView {
    let extra = Range {
        start_line: (i + maximum + 1) as usize,
        start_column: 1,
        end_line: (i + r + 1) as usize,
        end_column: 1,
    };
    finding(
        LintMessage::NoMultipleBlanks { count: r as usize },
        Some(line_range(i + 1, 1, 1)),
        Some((extra, Seq::empty())),
    )
}

proof fn lemma_blank_run_is(s: Seq<Seq<char>>, r: int)
    requires
        0 <= r <= s.len(),
        forall|q: int| 0 <= q < r ==> blank(#[trigger] s[q]),
        r == s.len() || !blank(s[r]),
    ensures
        crate::rules::lines::blank_run(s) == r,
    decreases r,
{
    if r > 0 {
        let d = s.drop_first();
        assert forall|q: int| 0 <= q < r - 1 implies blank(#[trigger] d[q]) by {
            assert(d[q] == s[q + 1]);
        }
        if r < s.len() {
            assert(d[r - 1] == s[r]);
        }
        lemma_blank_run_is(d, r - 1);
    }
}

proof fn lemma_blank_run_shape(s: Seq<Seq<char>>)
    ensures
        crate::rules::lines::blank_run(s) <= s.len(),
        forall|q: int| 0 <= q < crate::rules::lines::blank_run(s) ==> blank(#[trigger] s[q]),
        crate::rules::lines::blank_run(s) < s.len() ==> !blank(s[crate::rules::lines::blank_run(s) as int]),
    decreases s.len(),
{
    if s.len() > 0 && blank(s[0]) {
        let d = s.drop_first();
        lemma_blank_run_shape(d);
        assert forall|q: int| 0 <= q < crate::rules::lines::blank_run(s) implies blank(#[trigger] s[q]) by {
            if q > 0 {
                assert(s[q] == d[q - 1]);
            }
        }
        if crate::rules::lines::blank_run(s) < s.len() {
            assert(s[crate::rules::lines::blank_run(s) as int] == d[crate::rules::lines::blank_run(d) as int]);
        }
    }
}

/// Every run of more consecutive blank lines than the `maximum` option allows is flagged once,
/// at its first line, with a fix that deletes the lines beyond the maximum.
pub proof fn law_long_blank_run_is_flagged(doc: Document, source: Seq<char>, config: LintConfig, i: int, r: int)
    requires
        blank_lines_run(spec_lines(source), i, r),
        r > maximum_blanks_option(config),
    ensures
        spec_check(RuleId::NoMultipleBlanks, doc, source, config).contains(
            blanks_finding(i, r, maximum_blanks_option(config)),
        ),
{
    let ls = spec_lines(source);
    let maximum = maximum_blanks_option(config);
    let t = ls.skip(i);
    assert forall|q: int| 0 <= q < r implies blank(#[trigger] t[q]) by {
        assert(t[q] == ls[i + q]);
    }
    if i + r < ls.len() {
        assert(t[r] == ls[i + r]);
    }
    lemma_blank_run_is(t, r);
    assert(blank(ls[i]));
    let f = crate::rules::lines::blank_runs_each(ls, maximum);
    let x = blanks_finding(i, r, maximum);
    assert(f(i) =~= seq![x]);
    assert(f(i)[0] == x);
    lemma_concat_upto_has(ls.len() as int, f, i, x);
}

/// Every `no_multiple_blanks` finding is that of a whole run of blank lines longer than the
/// `maximum` option allows.
pub proof fn law_blank_findings_are_long_runs(doc: Document, source: Seq<char>, config: LintConfig, n: int)
    requires
        0 <= n < spec_check(RuleId::NoMultipleBlanks, doc, source, config).len(),
    ensures
        exists|i: int, r: int|
            blank_lines_run(spec_lines(source), i, r) && r > maximum_blanks_option(config)
                && spec_check(RuleId::NoMultipleBlanks, doc, source, config)[n]
                == #[trigger] blanks_finding(i, r, maximum_blanks_option(config)),
{
    let ls = spec_lines(source);
    let maximum = maximum_blanks_option(config);
    let f = crate::rules::lines::blank_runs_each(ls, maximum);
    let res = spec_check(RuleId::NoMultipleBlanks, doc, source, config);
    assert(res.contains(res[n]));
    lemma_concat_upto_from(ls.len() as int, f, res[n]);
    let i = choose|i: int| 0 <= i < ls.len() && (#[trigger] f(i)).contains(res[n]);
    assert(f(i).len() > 0);
    let t = ls.skip(i);
    lemma_blank_run_shape(t);
    let r = crate::rules::lines::blank_run(t) as int;
    assert forall|q: int| i <= q < i + r implies blank(#[trigger] ls[q]) by {
        assert(ls[q] == t[q - i]);
    }
    if i + r < ls.len() {
        assert(ls[i + r] == t[r]);
    }
    assert(blank_lines_run(ls, i, r));
    assert(res[n] == blanks_finding(i, r, maximum));
}

// ---------------------------------------------------------------------------------------------
// single_h1

/// Whether `n` is a top-level heading.
pub open spec fn top_level_heading(n: DocNode) -> bool {
    n.kind == NodeKind::Heading && n.depth == 1
}

/// Every top-level heading after another top-level heading is flagged at its position.
pub proof fn law_later_h1_is_flagged(doc: Document, source: Seq<char>, config: LintConfig, m: int, k: int)
    requires
        0 <= m < k < doc.nodes@.len(),
        top_level_heading(doc.nodes@[m]),
        top_level_heading(doc.nodes@[k]),
    ensures
        spec_check(RuleId::SingleH1, doc, source, config).contains(
            finding(LintMessage::SingleH1, doc.nodes@[k].position, None),
        ),
{
    let nodes = doc.nodes@;
    let f = crate::rules::document::extra_h1_each(nodes);
    let x = finding(LintMessage::SingleH1, nodes[k].position, None);
    assert(crate::rules::document::is_h1(nodes[m]));
    assert(f(k) =~= seq![x]);
    assert(f(k)[0] == x);
    lemma_concat_upto_has(nodes.len() as int, f, k, x);
}

/// Every `single_h1` finding is that of a top-level heading with another one before it (so
/// the first top-level heading is never flagged).
pub proof fn law_h1_findings_follow_an_h1(doc: Document, source: Seq<char>, config: LintConfig, i: int)
    requires
        0 <= i < spec_check(RuleId::SingleH1, doc, source, config).len(),
    ensures
        exists|m: int, k: int|
            #![trigger doc.nodes@[m], doc.nodes@[k]]
            0 <= m < k < doc.nodes@.len() && top_level_heading(doc.nodes@[m]) && top_level_heading(
                doc.nodes@[k],
            ) && spec_check(RuleId::SingleH1, doc, source, config)[i] == finding(
                LintMessage::SingleH1,
                doc.nodes@[k].position,
                None,
            ),
{
    let nodes = doc.nodes@;
    let f = crate::rules::document::extra_h1_each(nodes);
    let r = spec_check(RuleId::SingleH1, doc, source, config);
    assert(r.contains(r[i]));
    lemma_concat_upto_from(nodes.len() as int, f, r[i]);
    let k = choose|k: int| 0 <= k < nodes.len() && (#[trigger] f(k)).contains(r[i]);
    assert(f(k).len() > 0);
    let m = choose|m: int| 0 <= m < k && crate::rules::document::is_h1(#[trigger] nodes[m]);
    assert(top_level_heading(nodes[m]));
    assert(r[i] == finding(LintMessage::SingleH1, nodes[k].position, None));
}

// ---------------------------------------------------------------------------------------------
// heading_start_left

/// Whether `line` starts with exactly `w` whitespace characters.
pub open spec fn leading_blanks(line: Seq<char>, w: int) -> bool {
    &&& 0 <= w <= line.len()
    &&& forall|j: int| 0 <= j < w ==> is_ws(#[trigger] line[j])
    &&& w == line.len() || !is_ws(line[w])
}

/// The finding for a heading on line `n` indented by `w` characters: the indentation,
/// fixed by deleting it.
pub open spec fn indent_finding(n: int, w: int) -> DiagView {
    let range = line_range(n, 1, w + 1);
    finding(LintMessage::HeadingStartLeft, Some(range), Some((range, Seq::empty())))
}

/// Every heading whose first line starts with whitespace (any amount, one character
/// included) is flagged over that whole indentation.
pub proof fn law_indented_heading_is_flagged(
    doc: Document,
    source: Seq<char>,
    config: LintConfig,
    k: int,
    n: int,
    line: Seq<char>,
    w: int,
)
    requires
        0 <= k < doc.nodes@.len(),
        crate::rules::headings::heading_line(doc.nodes@, spec_lines(source), k) == Some((n, line)),
        leading_blanks(line, w),
        w > 0,
    ensures
        spec_check(RuleId::HeadingStartLeft, doc, source, config).contains(indent_finding(n, w)),
{
    let nodes = doc.nodes@;
    let ls = spec_lines(source);
    assert forall|j: int| 0 <= j < w implies crate::text::in_class(
        #[trigger] line[j],
        crate::text::CharClass::Whitespace,
    ) by {
        assert(is_ws(line[j]));
    }
    crate::text::lemma_count_while_is(line, crate::text::CharClass::Whitespace, w);
    let f = crate::rules::headings::heading_start_left_each(nodes, ls);
    let x = indent_finding(n, w);
    assert(f(k) =~= seq![x]);
    assert(f(k)[0] == x);
    lemma_concat_upto_has(nodes.len() as int, f, k, x);
}

/// Every `heading_start_left` finding is that of a heading whose first line starts with
/// whitespace, over all of it.
pub proof fn law_start_left_findings_are_indented_headings(
    doc: Document,
    source: Seq<char>,
    config: LintConfig,
    i: int,
)
    requires
        0 <= i < spec_check(RuleId::HeadingStartLeft, doc, source, config).len(),
    ensures
        exists|k: int, n: int, line: Seq<char>, w: int|
            #![trigger crate::rules::headings::heading_line(doc.nodes@, spec_lines(source), k), leading_blanks(line, w), indent_finding(n, w)]
            0 <= k < doc.nodes@.len() && crate::rules::headings::heading_line(
                doc.nodes@,
                spec_lines(source),
                k,
            ) == Some((n, line)) && leading_blanks(line, w) && w > 0 && spec_check(
                RuleId::HeadingStartLeft,
                doc,
                source,
                config,
            )[i] == indent_finding(n, w),
{
    let nodes = doc.nodes@;
    let ls = spec_lines(source);
    let f = crate::rules::headings::heading_start_left_each(nodes, ls);
    let r = spec_check(RuleId::HeadingStartLeft, doc, source, config);
    assert(r.contains(r[i]));
    lemma_concat_upto_from(nodes.len() as int, f, r[i]);
    let k = choose|k: int| 0 <= k < nodes.len() && (#[trigger] f(k)).contains(r[i]);
    assert(f(k).len() > 0);
    let (n, line) = crate::rules::headings::heading_line(nodes, ls, k).unwrap();
    let w = crate::text::count_while(line, crate::text::CharClass::Whitespace) as int;
    crate::text::lemma_count_while_bounds(line, crate::text::CharClass::Whitespace);
    assert(leading_blanks(line, w));
    assert(r[i] == indent_finding(n, w));
}

// ---------------------------------------------------------------------------------------------
// no_trailing_punctuation_heading

/// Whether `line[p]` is the last character of `line` that is not whitespace.
pub open spec fn last_visible(line: Seq<char>, p: int) -> bool {
    &&& 0 <= p < line.len()
    &&& !is_ws(line[p])
    &&& forall|j: int| p < j < line.len() ==> is_ws(#[trigger] line[j])
}

/// The finding for a heading on line `n` whose last visible character, at 0-based column
/// `p`, is the punctuation mark `c`: that character, fixed by deleting it.
pub open spec fn punctuation_at(n: int, p: int, c: char) -> DiagView {
    let range = line_range(n, p + 1, p + 2);
    finding(
        LintMessage::NoTrailingPunctuationHeading { punctuation: c },
        Some(range),
        Some((range, Seq::empty())),
    )
}

/// Every heading whose first line's last visible character is one of the `punctuation`
/// option's characters is flagged at that character.
pub proof fn law_heading_punctuation_is_flagged(
    doc: Document,
    source: Seq<char>,
    config: LintConfig,
    k: int,
    n: int,
    line: Seq<char>,
    p: int,
)
    requires
        0 <= k < doc.nodes@.len(),
        crate::rules::headings::heading_line(doc.nodes@, spec_lines(source), k) == Some((n, line)),
        last_visible(line, p),
        crate::rules::headings::punctuation_option(config).contains(line[p]),
    ensures
        spec_check(RuleId::NoTrailingPunctuationHeading, doc, source, config).contains(
            punctuation_at(n, p, line[p]),
        ),
{
    let nodes = doc.nodes@;
    let ls = spec_lines(source);
    let ws = crate::text::CharClass::Whitespace;
    assert forall|j: int| line.len() - (line.len() - p - 1) <= j < line.len() implies crate::text::in_class(
        #[trigger] line[j],
        ws,
    ) by {
        assert(is_ws(line[j]));
    }
    lemma_count_while_rev_is(line, ws, line.len() - p - 1);
    let t = crate::text::trim_end(line);
    assert(t =~= line.take(p + 1));
    assert(t.last() == line[p]);
    let f = crate::rules::headings::punctuation_each(nodes, ls, crate::rules::headings::punctuation_option(config));
    let x = punctuation_at(n, p, line[p]);
    assert(f(k) =~= seq![x]);
    assert(f(k)[0] == x);
    lemma_concat_upto_has(nodes.len() as int, f, k, x);
}

/// Every `no_trailing_punctuation_heading` finding is that of a heading whose first line's
/// last visible character is one of the `punctuation` option's characters.
pub proof fn law_punctuation_findings_end_headings(
    doc: Document,
    source: Seq<char>,
    config: LintConfig,
    i: int,
)
    requires
        0 <= i < spec_check(RuleId::NoTrailingPunctuationHeading, doc, source, config).len(),
    ensures
        exists|k: int, n: int, line: Seq<char>, p: int|
            #![trigger crate::rules::headings::heading_line(doc.nodes@, spec_lines(source), k), punctuation_at(n, p, line[p])]
            0 <= k < doc.nodes@.len() && crate::rules::headings::heading_line(
                doc.nodes@,
                spec_lines(source),
                k,
            ) == Some((n, line)) && last_visible(line, p)
                && crate::rules::headings::punctuation_option(config).contains(line[p]) && spec_check(
                RuleId::NoTrailingPunctuationHeading,
                doc,
                source,
                config,
            )[i] == punctuation_at(n, p, line[p]),
{
    let nodes = doc.nodes@;
    let ls = spec_lines(source);
    let ws = crate::text::CharClass::Whitespace;
    let punct = crate::rules::headings::punctuation_option(config);
    let f = crate::rules::headings::punctuation_each(nodes, ls, punct);
    let r = spec_check(RuleId::NoTrailingPunctuationHeading, doc, source, config);
    assert(r.contains(r[i]));
    lemma_concat_upto_from(nodes.len() as int, f, r[i]);
    let k = choose|k: int| 0 <= k < nodes.len() && (#[trigger] f(k)).contains(r[i]);
    assert(f(k).len() > 0);
    let (n, line) = crate::rules::headings::heading_line(nodes, ls, k).unwrap();
    crate::text::lemma_count_while_rev_bounds(line, ws);
    let c = crate::text::count_while_rev(line, ws) as int;
    let t = crate::text::trim_end(line);
    let p = t.len() - 1;
    assert(p == line.len() - c - 1);
    assert(t.last() == line[p]);
    assert(!is_ws(line[p])) by {
        lemma_rev_stop_class(line, ws);
    }
    assert forall|j: int| p < j < line.len() implies is_ws(#[trigger] line[j]) by {
        assert(crate::text::in_class(line[j], ws));
    }
    assert(last_visible(line, p));
    assert(r[i] == punctuation_at(n, p, line[p]));
}

// ---------------------------------------------------------------------------------------------
// fenced_code_language, no_empty_links, image_missing_alt

/// The rules that judge each node of the document on its own.
pub open spec fn judges_each_node(rule: RuleId) -> bool {
    rule == RuleId::FencedCodeLanguage || rule == RuleId::NoEmptyLinks || rule == RuleId::ImageMissingAlt
}

/// What each of those rules objects to in a node: a fenced code block with no language or an
/// empty one; a link whose destination is empty or a bare `#`; an image (inline or by
/// reference) whose alt text is empty or only whitespace.
pub open spec fn node_problem(rule: RuleId, n: DocNode) -> bool {
    match rule {
        RuleId::FencedCodeLanguage => n.kind == NodeKind::Code && n.fence && (n.lang is None
            || n.lang.unwrap()@.len() == 0),
        RuleId::NoEmptyLinks => n.kind == NodeKind::Link && (n.url@.len() == 0 || n.url@ == seq!['#']),
        RuleId::ImageMissingAlt => (n.kind == NodeKind::Image || n.kind == NodeKind::ImageRef)
            && crate::text::trim(n.alt@).len() == 0,
        _ => false,
    }
}

/// The finding such a rule reports for node `n`, at the node's position; an image is named by
/// its destination, an image reference by its identifier.
pub open spec fn node_report(rule: RuleId, n: DocNode) -> DiagView {
    match rule {
        RuleId::FencedCodeLanguage => finding(LintMessage::FencedCodeLanguage, n.position, None),
        RuleId::NoEmptyLinks => finding(LintMessage::NoEmptyLinks, n.position, None),
        _ => DiagView {
            rule: RuleId::ImageMissingAlt,
            text: "image `"@ + (if n.kind == NodeKind::Image {
                n.url@
            } else {
                n.ident@
            }) + "` has no alt text"@,
            severity: spec_default_severity(RuleId::ImageMissingAlt),
            range: n.position,
            fix: None,
        },
    }
}

/// Every node that one of these rules objects to is flagged by it.
pub proof fn law_node_problem_is_flagged(
    doc: Document,
    source: Seq<char>,
    config: LintConfig,
    rule: RuleId,
    k: int,
)
    requires
        judges_each_node(rule),
        0 <= k < doc.nodes@.len(),
        node_problem(rule, doc.nodes@[k]),
    ensures
        spec_check(rule, doc, source, config).contains(node_report(rule, doc.nodes@[k])),
{
    let nodes = doc.nodes@;
    let f = crate::rules::blocks::node_each(rule, nodes, false);
    let x = node_report(rule, nodes[k]);
    assert(spec_check(rule, doc, source, config) == crate::rules::blocks::spec_node_rule(rule, nodes, false));
    assert(f(k) =~= seq![x]);
    assert(f(k)[0] == x);
    lemma_concat_upto_has(nodes.len() as int, f, k, x);
}

/// Every finding of these rules is that of a node the rule objects to.
pub proof fn law_node_findings_are_problems(
    doc: Document,
    source: Seq<char>,
    config: LintConfig,
    rule: RuleId,
    i: int,
)
    requires
        judges_each_node(rule),
        0 <= i < spec_check(rule, doc, source, config).len(),
    ensures
        exists|k: int|
            0 <= k < doc.nodes@.len() && node_problem(rule, doc.nodes@[k]) && spec_check(
                rule,
                doc,
                source,
                config,
            )[i] == node_report(rule, #[trigger] doc.nodes@[k]),
{
    let nodes = doc.nodes@;
    let f = crate::rules::blocks::node_each(rule, nodes, false);
    let r = spec_check(rule, doc, source, config);
    assert(r == crate::rules::blocks::spec_node_rule(rule, nodes, false));
    assert(r.contains(r[i]));
    lemma_concat_upto_from(nodes.len() as int, f, r[i]);
    let k = choose|k: int| 0 <= k < nodes.len() && (#[trigger] f(k)).contains(r[i]);
    assert(f(k).len() > 0);
    assert(node_problem(rule, nodes[k]));
    assert(r[i] == node_report(rule, nodes[k]));
}

// ---------------------------------------------------------------------------------------------
// no_blanks_blockquote

/// Whether `line` is blank or holds nothing but a `>`.
pub open spec fn empty_quote_line(line: Seq<char>) -> bool {
    crate::text::trim(line).len() == 0 || crate::text::trim(line) == seq!['>']
}

/// The finding for line `i` (0-based) of `ls`: the whole line.
pub open spec fn quote_gap_finding(ls: Seq<Seq<char>>, i: int) -> DiagView {
    finding(LintMessage::NoBlanksBlockquote, Some(line_range(i + 1, 1, ls[i].len() + 1int)), None)
}

/// Every blank (or bare `>`) line with a blockquote line just above and just below it is
/// flagged.
pub proof fn law_gap_in_blockquote_is_flagged(doc: Document, source: Seq<char>, config: LintConfig, i: int)
    requires
        0 < i,
        i + 1 < spec_lines(source).len(),
        empty_quote_line(spec_lines(source)[i]),
        crate::rules::lines::blockquote_line(spec_lines(source)[i - 1]),
        crate::rules::lines::blockquote_line(spec_lines(source)[i + 1]),
    ensures
        spec_check(RuleId::NoBlanksBlockquote, doc, source, config).contains(
            quote_gap_finding(spec_lines(source), i),
        ),
{
    let ls = spec_lines(source);
    let f = crate::rules::lines::blank_in_blockquote_each(ls);
    let x = quote_gap_finding(ls, i);
    assert(f(i) =~= seq![x]);
    assert(f(i)[0] == x);
    lemma_concat_upto_has(ls.len() as int, f, i, x);
}

/// Every `no_blanks_blockquote` finding is that of a blank (or bare `>`) line between two
/// blockquote lines.
pub proof fn law_blockquote_findings_are_gaps(doc: Document, source: Seq<char>, config: LintConfig, n: int)
    requires
        0 <= n < spec_check(RuleId::NoBlanksBlockquote, doc, source, config).len(),
    ensures
        exists|i: int|
            0 < i && i + 1 < spec_lines(source).len() && empty_quote_line(spec_lines(source)[i])
                && crate::rules::lines::blockquote_line(spec_lines(source)[i - 1])
                && crate::rules::lines::blockquote_line(spec_lines(source)[i + 1]) && spec_check(
                RuleId::NoBlanksBlockquote,
                doc,
                source,
                config,
            )[n] == #[trigger] quote_gap_finding(spec_lines(source), i),
{
    let ls = spec_lines(source);
    let f = crate::rules::lines::blank_in_blockquote_each(ls);
    let r = spec_check(RuleId::NoBlanksBlockquote, doc, source, config);
    assert(r.contains(r[n]));
    lemma_concat_upto_from(ls.len() as int, f, r[n]);
    let i = choose|i: int| 0 <= i < ls.len() && (#[trigger] f(i)).contains(r[n]);
    assert(f(i).len() > 0);
    assert(r[n] == quote_gap_finding(ls, i));
}

// ---------------------------------------------------------------------------------------------
// no_multiple_space_atx

/// Whether heading line `line` is `w` whitespace characters, then exactly `h` `#`s, then
/// exactly `g` spaces (each run followed by a character of another kind, or by the line's
/// end).
pub open spec fn atx_opening(line: Seq<char>, w: int, h: int, g: int) -> bool {
    &&& leading_blanks(line, w)
    &&& 0 <= h && 0 <= g && w + h + g <= line.len()
    &&& forall|j: int| w <= j < w + h ==> #[trigger] line[j] == '#'
    &&& w + h == line.len() || line[w + h] != '#'
    &&& forall|j: int| w + h <= j < w + h + g ==> #[trigger] line[j] == ' '
    &&& w + h + g == line.len() || line[w + h + g] != ' '
}

/// The finding for the `g` spaces after the `#`s of the heading on line `n`: fixed by one
/// space.
pub open spec fn atx_gap_finding(n: int, w: int, h: int, g: int) -> DiagView {
    let range = line_range(n, w + h + 1, w + h + 1 + g);
    finding(LintMessage::NoMultipleSpaceAtx, Some(range), Some((range, seq![' '])))
}

proof fn lemma_atx_counts(line: Seq<char>, w: int, h: int, g: int)
    requires
        atx_opening(line, w, h, g),
    ensures
        crate::text::count_while(line, crate::text::CharClass::Whitespace) == w,
        crate::text::count_while(line.skip(w), crate::text::CharClass::Exactly('#')) == h,
        crate::text::count_while(line.skip(w).skip(h), crate::text::CharClass::Exactly(' ')) == g,
{
    let ws = crate::text::CharClass::Whitespace;
    let hash = crate::text::CharClass::Exactly('#');
    let sp = crate::text::CharClass::Exactly(' ');
    assert forall|j: int| 0 <= j < w implies crate::text::in_class(#[trigger] line[j], ws) by {
        assert(is_ws(line[j]));
    }
    crate::text::lemma_count_while_is(line, ws, w);
    let t = line.skip(w);
    assert forall|j: int| 0 <= j < h implies crate::text::in_class(#[trigger] t[j], hash) by {
        assert(t[j] == line[w + j]);
    }
    if h < t.len() {
        assert(t[h] == line[w + h]);
    }
    crate::text::lemma_count_while_is(t, hash, h);
    let u = t.skip(h);
    assert forall|j: int| 0 <= j < g implies crate::text::in_class(#[trigger] u[j], sp) by {
        assert(u[j] == line[w + h + j]);
    }
    if g < u.len() {
        assert(u[g] == line[w + h + g]);
    }
    crate::text::lemma_count_while_is(u, sp, g);
}

/// Every heading whose `#`s are followed by two or more spaces is flagged over those spaces.
pub proof fn law_atx_extra_spaces_are_flagged(
    doc: Document,
    source: Seq<char>,
    config: LintConfig,
    k: int,
    n: int,
    line: Seq<char>,
    w: int,
    h: int,
    g: int,
)
    requires
        0 <= k < doc.nodes@.len(),
        crate::rules::headings::heading_line(doc.nodes@, spec_lines(source), k) == Some((n, line)),
        atx_opening(line, w, h, g),
        h >= 1,
        g >= 2,
    ensures
        spec_check(RuleId::NoMultipleSpaceAtx, doc, source, config).contains(atx_gap_finding(n, w, h, g)),
{
    let nodes = doc.nodes@;
    let ls = spec_lines(source);
    lemma_atx_counts(line, w, h, g);
    let f = crate::rules::headings::atx_spaces_each(nodes, ls);
    let x = atx_gap_finding(n, w, h, g);
    assert(f(k) =~= seq![x]);
    assert(f(k)[0] == x);
    lemma_concat_upto_has(nodes.len() as int, f, k, x);
}

/// Every `no_multiple_space_atx` finding is that of a heading whose `#`s are followed by two
/// or more spaces.
pub proof fn law_atx_space_findings_are_gaps(doc: Document, source: Seq<char>, config: LintConfig, i: int)
    requires
        0 <= i < spec_check(RuleId::NoMultipleSpaceAtx, doc, source, config).len(),
    ensures
        exists|k: int, n: int, line: Seq<char>, w: int, h: int, g: int|
            #![trigger crate::rules::headings::heading_line(doc.nodes@, spec_lines(source), k), atx_opening(line, w, h, g), atx_gap_finding(n, w, h, g)]
            0 <= k < doc.nodes@.len() && crate::rules::headings::heading_line(
                doc.nodes@,
                spec_lines(source),
                k,
            ) == Some((n, line)) && atx_opening(line, w, h, g) && h >= 1 && g >= 2 && spec_check(
                RuleId::NoMultipleSpaceAtx,
                doc,
                source,
                config,
            )[i] == atx_gap_finding(n, w, h, g),
{
    let nodes = doc.nodes@;
    let ls = spec_lines(source);
    let f = crate::rules::headings::atx_spaces_each(nodes, ls);
    let r = spec_check(RuleId::NoMultipleSpaceAtx, doc, source, config);
    assert(r.contains(r[i]));
    lemma_concat_upto_from(nodes.len() as int, f, r[i]);
    let k = choose|k: int| 0 <= k < nodes.len() && (#[trigger] f(k)).contains(r[i]);
    assert(f(k).len() > 0);
    let (n, line) = crate::rules::headings::heading_line(nodes, ls, k).unwrap();
    let ws = crate::text::CharClass::Whitespace;
    let hash = crate::text::CharClass::Exactly('#');
    let sp = crate::text::CharClass::Exactly(' ');
    crate::text::lemma_count_while_bounds(line, ws);
    let w = crate::text::count_while(line, ws) as int;
    let t = line.skip(w);
    crate::text::lemma_count_while_bounds(t, hash);
    let h = crate::text::count_while(t, hash) as int;
    let u = t.skip(h);
    crate::text::lemma_count_while_bounds(u, sp);
    let g = crate::text::count_while(u, sp) as int;
    assert forall|j: int| w <= j < w + h implies #[trigger] line[j] == '#' by {
        assert(line[j] == t[j - w]);
        assert(crate::text::in_class(t[j - w], hash));
    }
    if w + h < line.len() {
        assert(line[w + h] == t[h]);
    }
    assert forall|j: int| w + h <= j < w + h + g implies #[trigger] line[j] == ' ' by {
        assert(line[j] == u[j - w - h]);
        assert(crate::text::in_class(u[j - w - h], sp));
    }
    if w + h + g < line.len() {
        assert(line[w + h + g] == u[g]);
    }
    assert(leading_blanks(line, w));
    assert(atx_opening(line, w, h, g));
    assert(r[i] == atx_gap_finding(n, w, h, g));
}

// ---------------------------------------------------------------------------------------------
// first_line_heading

/// Whether top-level node `n` is a front matter block.
pub open spec fn front_matter_block(n: DocNode) -> bool {
    n.kind == NodeKind::Yaml || n.kind == NodeKind::Toml
}

proof fn lemma_first_content_is(top: Seq<DocNode>, i: int)
    requires
        0 <= i < top.len(),
        forall|j: int| 0 <= j < i ==> front_matter_block(#[trigger] top[j]),
        !front_matter_block(top[i]),
    ensures
        crate::rules::blocks::first_content(top) == Some(i),
    decreases i,
{
    if i > 0 {
        let d = top.drop_first();
        assert(front_matter_block(top[0]));
        assert forall|j: int| 0 <= j < i - 1 implies front_matter_block(#[trigger] d[j]) by {
            assert(d[j] == top[j + 1]);
        }
        assert(d[i - 1] == top[i]);
        lemma_first_content_is(d, i - 1);
    }
}

proof fn lemma_no_content(top: Seq<DocNode>)
    requires
        forall|j: int| 0 <= j < top.len() ==> front_matter_block(#[trigger] top[j]),
    ensures
        crate::rules::blocks::first_content(top) is None,
    decreases top.len(),
{
    if top.len() > 0 {
        let d = top.drop_first();
        assert(front_matter_block(top[0]));
        assert forall|j: int| 0 <= j < d.len() implies front_matter_block(#[trigger] d[j]) by {
            assert(d[j] == top[j + 1]);
        }
        lemma_no_content(d);
    }
}

/// The document's first top-level node after any front matter decides `first_line_heading`:
/// nothing when it is a top-level heading, else one finding at that node.
pub proof fn law_first_content_decides(doc: Document, source: Seq<char>, config: LintConfig, i: int)
    requires
        0 <= i < doc.top@.len(),
        forall|j: int| 0 <= j < i ==> front_matter_block(#[trigger] doc.top@[j]),
        !front_matter_block(doc.top@[i]),
    ensures
        spec_check(RuleId::FirstLineHeading, doc, source, config) == if top_level_heading(doc.top@[i]) {
            Seq::<DiagView>::empty()
        } else {
            seq![finding(LintMessage::FirstLineHeading, doc.top@[i].position, None)]
        },
{
    lemma_first_content_is(doc.top@, i);
}

/// A document with nothing but front matter (or nothing at all) has no `first_line_heading`
/// finding.
pub proof fn law_front_matter_only_is_silent(doc: Document, source: Seq<char>, config: LintConfig)
    requires
        forall|j: int| 0 <= j < doc.top@.len() ==> front_matter_block(#[trigger] doc.top@[j]),
    ensures
        spec_check(RuleId::FirstLineHeading, doc, source, config).len() == 0,
{
    lemma_no_content(doc.top@);
}

// ---------------------------------------------------------------------------------------------
// descriptive_link_text

/// Whether link text `text`, trimmed and lowercased, is one of the forbidden texts that
/// `config` gives (the `forbidden` option's, else the defaults), lowercased.
pub open spec fn forbidden_link_text(text: Seq<char>, config: LintConfig) -> bool {
    crate::rules::content::forbidden_texts(config).contains(
        crate::text::lowercased(crate::text::trim(text)),
    )
}

/// Every link whose text is a forbidden one (compared trimmed and without regard to case) is
/// flagged at its position, quoting its text.
pub proof fn law_vague_link_is_flagged(doc: Document, source: Seq<char>, config: LintConfig, k: int)
    requires
        0 <= k < doc.nodes@.len(),
        doc.nodes@[k].kind == NodeKind::Link,
        forbidden_link_text(doc.nodes@[k].link_text@, config),
    ensures
        spec_check(RuleId::DescriptiveLinkText, doc, source, config).contains(
            finding(
                LintMessage::DescriptiveLinkText { text: doc.nodes@[k].link_text },
                doc.nodes@[k].position,
                None,
            ),
        ),
{
    let nodes = doc.nodes@;
    let f = crate::rules::content::descriptive_each(nodes, crate::rules::content::forbidden_texts(config));
    let x = finding(LintMessage::DescriptiveLinkText { text: nodes[k].link_text }, nodes[k].position, None);
    assert(f(k) =~= seq![x]);
    assert(f(k)[0] == x);
    lemma_concat_upto_has(nodes.len() as int, f, k, x);
}

/// Every `descriptive_link_text` finding is that of a link whose text is a forbidden one.
pub proof fn law_vague_link_findings_are_links(doc: Document, source: Seq<char>, config: LintConfig, i: int)
    requires
        0 <= i < spec_check(RuleId::DescriptiveLinkText, doc, source, config).len(),
    ensures
        exists|k: int|
            0 <= k < doc.nodes@.len() && (#[trigger] doc.nodes@[k]).kind == NodeKind::Link
                && forbidden_link_text(doc.nodes@[k].link_text@, config) && spec_check(
                RuleId::DescriptiveLinkText,
                doc,
                source,
                config,
            )[i] == finding(
                LintMessage::DescriptiveLinkText { text: doc.nodes@[k].link_text },
                doc.nodes@[k].position,
                None,
            ),
{
    let nodes = doc.nodes@;
    let f = crate::rules::content::descriptive_each(nodes, crate::rules::content::forbidden_texts(config));
    let r = spec_check(RuleId::DescriptiveLinkText, doc, source, config);
    assert(r.contains(r[i]));
    lemma_concat_upto_from(nodes.len() as int, f, r[i]);
    let k = choose|k: int| 0 <= k < nodes.len() && (#[trigger] f(k)).contains(r[i]);
    assert(f(k).len() > 0);
    assert(r[i] == finding(LintMessage::DescriptiveLinkText { text: nodes[k].link_text }, nodes[k].position, None));
}

// ---------------------------------------------------------------------------------------------
// commands_show_output

/// Whether code lines `ls` are nothing but commands: at least one line is not blank, and
/// every line that is not blank starts, after its indentation, with `$ `.
pub open spec fn commands_only(ls: Seq<Seq<char>>) -> bool {
    &&& exists|i: int| 0 <= i < ls.len() && crate::text::trim(#[trigger] ls[i]).len() > 0
    &&& forall|i: int|
        0 <= i < ls.len() && crate::text::trim(#[trigger] ls[i]).len() > 0 ==> crate::text::starts_with(
            crate::text::trim_start(ls[i]),
            seq!['$', ' '],
        )
}

/// The finding for code block `n` with lines `ls`: at its position, fixed (where the block
/// has content lines between its fences) by the commands without their prompts.
pub open spec fn commands_finding(n: DocNode, ls: Seq<Seq<char>>) -> DiagView {
    finding(
        LintMessage::CommandsShowOutput,
        n.position,
        match n.position {
            Some(p) => crate::rules::content::commands_fix(p, ls),
            None => None,
        },
    )
}

/// Every code block made only of `$ ` commands is flagged.
pub proof fn law_commands_only_block_is_flagged(doc: Document, source: Seq<char>, config: LintConfig, k: int)
    requires
        0 <= k < doc.nodes@.len(),
        doc.nodes@[k].kind == NodeKind::Code,
        commands_only(spec_lines(doc.nodes@[k].value@)),
    ensures
        spec_check(RuleId::CommandsShowOutput, doc, source, config).contains(
            commands_finding(doc.nodes@[k], spec_lines(doc.nodes@[k].value@)),
        ),
{
    let nodes = doc.nodes@;
    let ls = spec_lines(nodes[k].value@);
    let f = crate::rules::content::commands_each(nodes);
    let x = commands_finding(nodes[k], ls);
    assert(crate::rules::content::only_commands(ls));
    assert(f(k) =~= seq![x]);
    assert(f(k)[0] == x);
    lemma_concat_upto_has(nodes.len() as int, f, k, x);
}

/// Every `commands_show_output` finding is that of a code block made only of `$ ` commands
/// (so a block that shows any output line is never flagged).
pub proof fn law_command_findings_are_command_blocks(doc: Document, source: Seq<char>, config: LintConfig, i: int)
    requires
        0 <= i < spec_check(RuleId::CommandsShowOutput, doc, source, config).len(),
    ensures
        exists|k: int|
            0 <= k < doc.nodes@.len() && (#[trigger] doc.nodes@[k]).kind == NodeKind::Code
                && commands_only(spec_lines(doc.nodes@[k].value@)) && spec_check(
                RuleId::CommandsShowOutput,
                doc,
                source,
                config,
            )[i] == commands_finding(doc.nodes@[k], spec_lines(doc.nodes@[k].value@)),
{
    let nodes = doc.nodes@;
    let f = crate::rules::content::commands_each(nodes);
    let r = spec_check(RuleId::CommandsShowOutput, doc, source, config);
    assert(r.contains(r[i]));
    lemma_concat_upto_from(nodes.len() as int, f, r[i]);
    let k = choose|k: int| 0 <= k < nodes.len() && (#[trigger] f(k)).contains(r[i]);
    assert(f(k).len() > 0);
    let ls = spec_lines(nodes[k].value@);
    assert(commands_only(ls));
    assert(r[i] == commands_finding(nodes[k], ls));
}

// ---------------------------------------------------------------------------------------------
// missing_front_matter_key

/// Whether required key `key` is missing from the document's front matter: there is none, or
/// it parsed and lacks the key (front matter that does not parse is reported on its own).
pub open spec fn key_missing(top: Seq<DocNode>, key: Seq<char>) -> bool {
    match crate::rules::front_matter::spec_front_matter(top) {
        crate::rules::front_matter::FrontMatter::Absent => true,
        crate::rules::front_matter::FrontMatter::Present(_, keys) => !keys.contains(key),
        crate::rules::front_matter::FrontMatter::Invalid(_, _) => false,
    }
}

/// The finding for missing key `key`: at the front matter when there is one.
pub open spec fn key_finding(top: Seq<DocNode>, key: Seq<char>) -> DiagView {
    match crate::rules::front_matter::spec_front_matter(top) {
        crate::rules::front_matter::FrontMatter::Present(at, _) => crate::rules::front_matter::missing_key_finding(
            key,
            true,
            at,
        ),
        _ => crate::rules::front_matter::missing_key_finding(key, false, None),
    }
}

/// Every required key that the front matter lacks (or that has no front matter to be in)
/// is reported.
pub proof fn law_missing_key_is_reported(doc: Document, source: Seq<char>, config: LintConfig, j: int)
    requires
        0 <= j < config.required_front_matter_keys@.len(),
        key_missing(doc.top@, config.required_front_matter_keys@[j]@),
    ensures
        spec_check(RuleId::MissingFrontMatterKey, doc, source, config).contains(
            key_finding(doc.top@, config.required_front_matter_keys@[j]@),
        ),
{
    let top = doc.top@;
    let required = config.required_front_matter_keys@;
    let front = crate::rules::front_matter::spec_front_matter(top);
    let f = crate::rules::front_matter::missing_key_each(required, front);
    let x = key_finding(top, required[j]@);
    assert(f(j) =~= seq![x]);
    assert(f(j)[0] == x);
    lemma_concat_upto_has(required.len() as int, f, j, x);
}

/// Unless the front matter does not parse, every `missing_front_matter_key` finding is that of
/// a required key the front matter lacks (so a key it has is never reported).
pub proof fn law_key_findings_are_missing_keys(doc: Document, source: Seq<char>, config: LintConfig, i: int)
    requires
        0 <= i < spec_check(RuleId::MissingFrontMatterKey, doc, source, config).len(),
        !(crate::rules::front_matter::spec_front_matter(doc.top@) is Invalid),
    ensures
        exists|j: int|
            0 <= j < config.required_front_matter_keys@.len() && key_missing(
                doc.top@,
                (#[trigger] config.required_front_matter_keys@[j])@,
            ) && spec_check(RuleId::MissingFrontMatterKey, doc, source, config)[i] == key_finding(
                doc.top@,
                config.required_front_matter_keys@[j]@,
            ),
{
    let top = doc.top@;
    let required = config.required_front_matter_keys@;
    let front = crate::rules::front_matter::spec_front_matter(top);
    let f = crate::rules::front_matter::missing_key_each(required, front);
    let r = spec_check(RuleId::MissingFrontMatterKey, doc, source, config);
    assert(r.contains(r[i]));
    lemma_concat_upto_from(required.len() as int, f, r[i]);
    let j = choose|j: int| 0 <= j < required.len() && (#[trigger] f(j)).contains(r[i]);
    assert(f(j).len() > 0);
    assert(key_missing(top, required[j]@));
    assert(r[i] == key_finding(top, required[j]@));
}

// ---------------------------------------------------------------------------------------------
// no_missing_space_atx

/// Whether `line` is `w` whitespace characters, then exactly `h` `#`s (one to six), then a
/// character that is neither a space, a tab nor a `#`: an ATX opening run straight into text.
pub open spec fn hashes_into_text(line: Seq<char>, w: int, h: int) -> bool {
    &&& leading_blanks(line, w)
    &&& 1 <= h <= 6
    &&& w + h < line.len()
    &&& forall|j: int| w <= j < w + h ==> #[trigger] line[j] == '#'
    &&& line[w + h] != ' ' && line[w + h] != '\t' && line[w + h] != '#'
}

/// The finding for line `n` whose `#`s end at column `w + h`: a space to insert after them.
pub open spec fn missing_space_at(n: int, w: int, h: int) -> DiagView {
    let at = line_range(n, w + h + 1, w + h + 1);
    finding(LintMessage::NoMissingSpaceAtx, Some(at), Some((at, seq![' '])))
}

proof fn lemma_hash_counts(line: Seq<char>, w: int, h: int)
    requires
        hashes_into_text(line, w, h),
    ensures
        crate::text::count_while(line, crate::text::CharClass::Whitespace) == w,
        crate::text::trim_start(line) == line.skip(w),
        crate::text::count_while(line.skip(w), crate::text::CharClass::Exactly('#')) == h,
{
    let ws = crate::text::CharClass::Whitespace;
    let hash = crate::text::CharClass::Exactly('#');
    assert forall|j: int| 0 <= j < w implies crate::text::in_class(#[trigger] line[j], ws) by {
        assert(is_ws(line[j]));
    }
    crate::text::lemma_count_while_is(line, ws, w);
    let t = line.skip(w);
    assert forall|j: int| 0 <= j < h implies crate::text::in_class(#[trigger] t[j], hash) by {
        assert(t[j] == line[w + j]);
    }
    assert(t[h] == line[w + h]);
    crate::text::lemma_count_while_is(t, hash, h);
}

/// Every line outside code blocks whose ATX `#`s run straight into text is flagged, with a
/// space to insert after the `#`s.
pub proof fn law_missing_atx_space_is_flagged(
    doc: Document,
    source: Seq<char>,
    config: LintConfig,
    j: int,
    w: int,
    h: int,
)
    requires
        0 <= j < spec_lines(source).len(),
        hashes_into_text(spec_lines(source)[j], w, h),
        !in_code_block(doc.nodes@, j + 1),
    ensures
        spec_check(RuleId::NoMissingSpaceAtx, doc, source, config).contains(missing_space_at(j + 1, w, h)),
{
    let ls = spec_lines(source);
    lemma_hash_counts(ls[j], w, h);
    let t = crate::text::trim_start(ls[j]);
    assert(t[h] == ls[j][w + h]);
    let f = crate::rules::markers::missing_space_each(ls, doc.nodes@);
    let x = missing_space_at(j + 1, w, h);
    assert(f(j) =~= seq![x]);
    assert(f(j)[0] == x);
    lemma_concat_upto_has(ls.len() as int, f, j, x);
}

/// Every `no_missing_space_atx` finding is that of a line outside code blocks whose ATX `#`s
/// run straight into text.
pub proof fn law_missing_atx_space_findings_are_such_lines(
    doc: Document,
    source: Seq<char>,
    config: LintConfig,
    i: int,
)
    requires
        0 <= i < spec_check(RuleId::NoMissingSpaceAtx, doc, source, config).len(),
    ensures
        exists|j: int, w: int, h: int|
            #![trigger hashes_into_text(spec_lines(source)[j], w, h)]
            0 <= j < spec_lines(source).len() && hashes_into_text(spec_lines(source)[j], w, h)
                && !in_code_block(doc.nodes@, j + 1) && spec_check(
                RuleId::NoMissingSpaceAtx,
                doc,
                source,
                config,
            )[i] == missing_space_at(j + 1, w, h),
{
    let ls = spec_lines(source);
    let f = crate::rules::markers::missing_space_each(ls, doc.nodes@);
    let r = spec_check(RuleId::NoMissingSpaceAtx, doc, source, config);
    assert(r.contains(r[i]));
    lemma_concat_upto_from(ls.len() as int, f, r[i]);
    let j = choose|j: int| 0 <= j < ls.len() && (#[trigger] f(j)).contains(r[i]);
    assert(f(j).len() > 0);
    let line = ls[j];
    let ws = crate::text::CharClass::Whitespace;
    let hash = crate::text::CharClass::Exactly('#');
    crate::text::lemma_count_while_bounds(line, ws);
    let w = crate::text::count_while(line, ws) as int;
    let t = crate::text::trim_start(line);
    crate::text::lemma_count_while_bounds(t, hash);
    let h = crate::text::count_while(t, hash) as int;
    assert(crate::rules::markers::missing_space_hashes(line) == Some(h));
    assert forall|q: int| w <= q < w + h implies #[trigger] line[q] == '#' by {
        assert(line[q] == t[q - w]);
        assert(crate::text::in_class(t[q - w], hash));
    }
    assert(line[w + h] == t[h]);
    assert(leading_blanks(line, w));
    assert(hashes_into_text(line, w, h));
    assert(r[i] == missing_space_at(j + 1, w, h));
}

// ---------------------------------------------------------------------------------------------
// no_missing_space_closed_atx, no_multiple_space_closed_atx

/// Whether heading line `line` ends with a closing run of exactly `c` `#`s starting at
/// column `a` (0-based), followed by nothing but whitespace.
pub open spec fn closing_hashes(line: Seq<char>, a: int, c: int) -> bool {
    &&& 0 <= a
    &&& 1 <= c
    &&& a + c <= line.len()
    &&& forall|j: int| a <= j < a + c ==> #[trigger] line[j] == '#'
    &&& a == 0 || line[a - 1] != '#'
    &&& forall|j: int| a + c <= j < line.len() ==> is_ws(#[trigger] line[j])
}

/// Whether the `g` characters before column `a` of `line` are spaces, and the one before
/// them (if any) is not.
pub open spec fn spaces_before(line: Seq<char>, a: int, g: int) -> bool {
    &&& 0 <= g <= a <= line.len()
    &&& forall|j: int| a - g <= j < a ==> #[trigger] line[j] == ' '
    &&& g == a || line[a - g - 1] != ' '
}

/// The `no_missing_space_closed_atx` finding for a heading on line `n` whose closing `#`s
/// start at column `a`: a space to insert before them.
pub open spec fn closed_missing_at(n: int, a: int) -> DiagView {
    let range = line_range(n, a + 1, a + 1);
    finding(LintMessage::NoMissingSpaceClosedAtx, Some(range), Some((range, seq![' '])))
}

/// The `no_multiple_space_closed_atx` finding for the `g` spaces before the closing `#`s at
/// column `a` of the heading on line `n`: replaced by one.
pub open spec fn closed_gap_at(n: int, a: int, g: int) -> DiagView {
    let range = line_range(n, a - g + 1, a + 1);
    finding(LintMessage::NoMultipleSpaceClosedAtx, Some(range), Some((range, seq![' '])))
}

/// The character before the trailing run of class `k` in `s` is not of that class.
proof fn lemma_rev_stop_class(s: Seq<char>, k: crate::text::CharClass)
    ensures
        crate::text::count_while_rev(s, k) < s.len() ==> !crate::text::in_class(
            s[s.len() - crate::text::count_while_rev(s, k) - 1],
            k,
        ),
    decreases s.len(),
{
    if s.len() > 0 && crate::text::in_class(s.last(), k) {
        let d = s.drop_last();
        lemma_rev_stop_class(d, k);
        if crate::text::count_while_rev(s, k) < s.len() {
            assert(d[d.len() - crate::text::count_while_rev(d, k) - 1] == s[s.len()
                - crate::text::count_while_rev(s, k) - 1]);
        }
    }
}

/// The pieces the closed-ATX rules compute, for a line of known shape.
proof fn lemma_closing_parts(line: Seq<char>, a: int, c: int)
    requires
        closing_hashes(line, a, c),
    ensures
        crate::text::trim_end(line) == line.take(a + c),
        crate::text::count_while_rev(line.take(a + c), crate::text::CharClass::Exactly('#')) == c,
        line.take(a + c).take(a + c - c) == line.take(a),
{
    let ws = crate::text::CharClass::Whitespace;
    let hash = crate::text::CharClass::Exactly('#');
    let e = line.len() - a - c;
    assert forall|j: int| line.len() - e <= j < line.len() implies crate::text::in_class(#[trigger] line[j], ws) by {
        assert(is_ws(line[j]));
    }
    assert(line[line.len() - e - 1] == '#');
    lemma_count_while_rev_is(line, ws, e);
    let t = line.take(a + c);
    assert(crate::text::trim_end(line) =~= t);
    assert forall|j: int| t.len() - c <= j < t.len() implies crate::text::in_class(#[trigger] t[j], hash) by {
        assert(t[j] == line[j]);
    }
    if a > 0 {
        assert(t[t.len() - c - 1] == line[a - 1]);
    }
    lemma_count_while_rev_is(t, hash, c);
    assert(t.take(a + c - c) =~= line.take(a));
}

/// Every heading whose closing `#`s follow its text with no space between is flagged, with a
/// space to insert before them.
pub proof fn law_closed_atx_missing_space_is_flagged(
    doc: Document,
    source: Seq<char>,
    config: LintConfig,
    k: int,
    n: int,
    line: Seq<char>,
    a: int,
    c: int,
)
    requires
        0 <= k < doc.nodes@.len(),
        crate::rules::headings::heading_line(doc.nodes@, spec_lines(source), k) == Some((n, line)),
        closing_hashes(line, a, c),
        a > 0,
        line[a - 1] != ' ' && line[a - 1] != '\t',
    ensures
        spec_check(RuleId::NoMissingSpaceClosedAtx, doc, source, config).contains(closed_missing_at(n, a)),
{
    let nodes = doc.nodes@;
    let ls = spec_lines(source);
    lemma_closing_parts(line, a, c);
    let core = line.take(a);
    assert(core.last() == line[a - 1]);
    let f = crate::rules::headings::closed_atx_each(nodes, ls, true);
    let x = closed_missing_at(n, a);
    assert(f(k) =~= seq![x]);
    assert(f(k)[0] == x);
    lemma_concat_upto_has(nodes.len() as int, f, k, x);
}

/// Every heading with two or more spaces between its text and its closing `#`s is flagged
/// over those spaces.
pub proof fn law_closed_atx_extra_spaces_are_flagged(
    doc: Document,
    source: Seq<char>,
    config: LintConfig,
    k: int,
    n: int,
    line: Seq<char>,
    a: int,
    c: int,
    g: int,
)
    requires
        0 <= k < doc.nodes@.len(),
        crate::rules::headings::heading_line(doc.nodes@, spec_lines(source), k) == Some((n, line)),
        closing_hashes(line, a, c),
        spaces_before(line, a, g),
        g >= 2,
    ensures
        spec_check(RuleId::NoMultipleSpaceClosedAtx, doc, source, config).contains(closed_gap_at(n, a, g)),
{
    let nodes = doc.nodes@;
    let ls = spec_lines(source);
    lemma_closing_parts(line, a, c);
    let core = line.take(a);
    let sp = crate::text::CharClass::Exactly(' ');
    assert forall|j: int| core.len() - g <= j < core.len() implies crate::text::in_class(#[trigger] core[j], sp) by {
        assert(core[j] == line[j]);
    }
    if g < a {
        assert(core[core.len() - g - 1] == line[a - g - 1]);
    }
    lemma_count_while_rev_is(core, sp, g);
    let f = crate::rules::headings::closed_atx_each(nodes, ls, false);
    let x = closed_gap_at(n, a, g);
    assert(f(k) =~= seq![x]);
    assert(f(k)[0] == x);
    lemma_concat_upto_has(nodes.len() as int, f, k, x);
}

/// The closing-run shape of a heading line that one of the closed-ATX rules flagged.
proof fn lemma_closing_shape_of(line: Seq<char>) -> (ac: (int, int))
    requires
        crate::text::count_while_rev(
            crate::text::trim_end(line),
            crate::text::CharClass::Exactly('#'),
        ) > 0,
    ensures
        closing_hashes(line, ac.0, ac.1),
        ac.1 == crate::text::count_while_rev(crate::text::trim_end(line), crate::text::CharClass::Exactly('#')),
        ac.0 + ac.1 == crate::text::trim_end(line).len(),
        line.take(ac.0) == crate::text::trim_end(line).take(ac.0),
{
    let ws = crate::text::CharClass::Whitespace;
    let hash = crate::text::CharClass::Exactly('#');
    crate::text::lemma_count_while_rev_bounds(line, ws);
    let e = crate::text::count_while_rev(line, ws) as int;
    let t = crate::text::trim_end(line);
    crate::text::lemma_count_while_rev_bounds(t, hash);
    lemma_rev_stop_class(t, hash);
    let c = crate::text::count_while_rev(t, hash) as int;
    let a = t.len() - c;
    assert forall|j: int| a <= j < a + c implies #[trigger] line[j] == '#' by {
        assert(t[j] == line[j]);
        assert(crate::text::in_class(t[j], hash));
    }
    if a > 0 {
        assert(t[a - 1] == line[a - 1]);
    }
    assert forall|j: int| a + c <= j < line.len() implies is_ws(#[trigger] line[j]) by {
        assert(crate::text::in_class(line[j], ws));
    }
    assert(line.take(a) =~= t.take(a));
    (a, c)
}

/// Every `no_missing_space_closed_atx` finding is that of a heading whose closing `#`s follow
/// its text with no space between.
pub proof fn law_closed_missing_findings_are_such_headings(
    doc: Document,
    source: Seq<char>,
    config: LintConfig,
    i: int,
)
    requires
        0 <= i < spec_check(RuleId::NoMissingSpaceClosedAtx, doc, source, config).len(),
    ensures
        exists|k: int, n: int, line: Seq<char>, a: int, c: int|
            #![trigger crate::rules::headings::heading_line(doc.nodes@, spec_lines(source), k), closing_hashes(line, a, c), closed_missing_at(n, a)]
            0 <= k < doc.nodes@.len() && crate::rules::headings::heading_line(
                doc.nodes@,
                spec_lines(source),
                k,
            ) == Some((n, line)) && closing_hashes(line, a, c) && a > 0 && line[a - 1] != ' '
                && line[a - 1] != '\t' && spec_check(RuleId::NoMissingSpaceClosedAtx, doc, source, config)[i]
                == closed_missing_at(n, a),
{
    let nodes = doc.nodes@;
    let ls = spec_lines(source);
    let f = crate::rules::headings::closed_atx_each(nodes, ls, true);
    let r = spec_check(RuleId::NoMissingSpaceClosedAtx, doc, source, config);
    assert(r.contains(r[i]));
    lemma_concat_upto_from(nodes.len() as int, f, r[i]);
    let k = choose|k: int| 0 <= k < nodes.len() && (#[trigger] f(k)).contains(r[i]);
    assert(f(k).len() > 0);
    let (n, line) = crate::rules::headings::heading_line(nodes, ls, k).unwrap();
    let (a, c) = lemma_closing_shape_of(line);
    let t = crate::text::trim_end(line);
    let core = t.take(t.len() - c);
    assert(core.last() == line[a - 1]);
    assert(r[i] == closed_missing_at(n, a));
}

/// Every `no_multiple_space_closed_atx` finding is that of a heading with two or more spaces
/// between its text and its closing `#`s.
pub proof fn law_closed_gap_findings_are_such_headings(
    doc: Document,
    source: Seq<char>,
    config: LintConfig,
    i: int,
)
    requires
        0 <= i < spec_check(RuleId::NoMultipleSpaceClosedAtx, doc, source, config).len(),
    ensures
        exists|k: int, n: int, line: Seq<char>, a: int, c: int, g: int|
            #![trigger crate::rules::headings::heading_line(doc.nodes@, spec_lines(source), k), closing_hashes(line, a, c), closed_gap_at(n, a, g)]
            0 <= k < doc.nodes@.len() && crate::rules::headings::heading_line(
                doc.nodes@,
                spec_lines(source),
                k,
            ) == Some((n, line)) && closing_hashes(line, a, c) && spaces_before(line, a, g) && g >= 2
                && spec_check(RuleId::NoMultipleSpaceClosedAtx, doc, source, config)[i] == closed_gap_at(
                n,
                a,
                g,
            ),
{
    let nodes = doc.nodes@;
    let ls = spec_lines(source);
    let f = crate::rules::headings::closed_atx_each(nodes, ls, false);
    let r = spec_check(RuleId::NoMultipleSpaceClosedAtx, doc, source, config);
    assert(r.contains(r[i]));
    lemma_concat_upto_from(nodes.len() as int, f, r[i]);
    let k = choose|k: int| 0 <= k < nodes.len() && (#[trigger] f(k)).contains(r[i]);
    assert(f(k).len() > 0);
    let (n, line) = crate::rules::headings::heading_line(nodes, ls, k).unwrap();
    let (a, c) = lemma_closing_shape_of(line);
    let t = crate::text::trim_end(line);
    let core = t.take(t.len() - c);
    let sp = crate::text::CharClass::Exactly(' ');
    crate::text::lemma_count_while_rev_bounds(core, sp);
    lemma_rev_stop_class(core, sp);
    let g = crate::text::count_while_rev(core, sp) as int;
    assert forall|j: int| a - g <= j < a implies #[trigger] line[j] == ' ' by {
        assert(core[j] == line[j]);
        assert(crate::text::in_class(core[j], sp));
    }
    if g < a {
        assert(core[a - g - 1] == line[a - g - 1]);
    }
    assert(spaces_before(line, a, g));
    assert(r[i] == closed_gap_at(n, a, g));
}

// ---------------------------------------------------------------------------------------------
// code_block_style

/// The `style` option of `code_block_style`, when it is given as text.
pub open spec fn block_style_option(config: LintConfig) -> Option<Seq<char>> {
    crate::config::as_text(config.spec_rule_option(RuleId::CodeBlockStyle, "style"@))
}

/// Whether node `f` is the document's first code block.
pub open spec fn first_code_block(nodes: Seq<DocNode>, f: int) -> bool {
    &&& 0 <= f < nodes.len()
    &&& nodes[f].kind == NodeKind::Code
    &&& forall|j: int| 0 <= j < f ==> (#[trigger] nodes[j]).kind != NodeKind::Code
}

/// The finding for code block `n` when blocks should be fenced (`fenced`) or indented.
pub open spec fn block_style_finding(n: DocNode, fenced: bool) -> DiagView {
    DiagView {
        rule: RuleId::CodeBlockStyle,
        text: "code block style should be "@ + (if fenced {
            "fenced"@
        } else {
            "indented"@
        }) + " (for consistency)"@,
        severity: spec_default_severity(RuleId::CodeBlockStyle),
        range: n.position,
        fix: None,
    }
}

/// The style a document's code blocks are held to: fenced exactly when the `style` option
/// says `fenced`; with no option, that of the first code block, `f`.
pub open spec fn wanted_fenced(nodes: Seq<DocNode>, config: LintConfig, f: int) -> bool {
    match block_style_option(config) {
        Some(s) => s == "fenced"@,
        None => nodes[f].fence,
    }
}

proof fn lemma_first_code_block(nodes: Seq<DocNode>, f: int)
    requires
        first_code_block(nodes, f),
    ensures
        crate::rules::blocks::first_code_fence(nodes) == Some(nodes[f].fence),
    decreases f,
{
    if f > 0 {
        let d = nodes.drop_first();
        assert(nodes[0].kind != NodeKind::Code);
        assert forall|j: int| 0 <= j < f - 1 implies (#[trigger] d[j]).kind != NodeKind::Code by {
            assert(d[j] == nodes[j + 1]);
        }
        assert(d[f - 1] == nodes[f]);
        lemma_first_code_block(d, f - 1);
    }
}

/// Every code block whose style (fenced or indented) is not the one the document's blocks are
/// held to (the configured one, else the first block's) is flagged.
pub proof fn law_off_style_code_block_is_flagged(
    doc: Document,
    source: Seq<char>,
    config: LintConfig,
    f: int,
    k: int,
)
    requires
        first_code_block(doc.nodes@, f),
        0 <= k < doc.nodes@.len(),
        doc.nodes@[k].kind == NodeKind::Code,
        doc.nodes@[k].fence != wanted_fenced(doc.nodes@, config, f),
    ensures
        spec_check(RuleId::CodeBlockStyle, doc, source, config).contains(
            block_style_finding(doc.nodes@[k], wanted_fenced(doc.nodes@, config, f)),
        ),
{
    let nodes = doc.nodes@;
    lemma_first_code_block(nodes, f);
    let want = wanted_fenced(nodes, config, f);
    assert(crate::rules::blocks::expected_code_style(nodes, config) == want);
    let g = crate::rules::blocks::node_each(RuleId::CodeBlockStyle, nodes, want);
    let x = block_style_finding(nodes[k], want);
    assert(g(k) =~= seq![x]);
    assert(g(k)[0] == x);
    lemma_concat_upto_has(nodes.len() as int, g, k, x);
}

/// Every `code_block_style` finding is that of a code block whose style is not the one the
/// document's blocks are held to (so with no option, the first block is never flagged).
pub proof fn law_code_block_style_findings_are_off_style(
    doc: Document,
    source: Seq<char>,
    config: LintConfig,
    f: int,
    i: int,
)
    requires
        first_code_block(doc.nodes@, f),
        0 <= i < spec_check(RuleId::CodeBlockStyle, doc, source, config).len(),
    ensures
        exists|k: int|
            0 <= k < doc.nodes@.len() && (#[trigger] doc.nodes@[k]).kind == NodeKind::Code
                && doc.nodes@[k].fence != wanted_fenced(doc.nodes@, config, f) && spec_check(
                RuleId::CodeBlockStyle,
                doc,
                source,
                config,
            )[i] == block_style_finding(doc.nodes@[k], wanted_fenced(doc.nodes@, config, f)),
{
    let nodes = doc.nodes@;
    lemma_first_code_block(nodes, f);
    let want = wanted_fenced(nodes, config, f);
    assert(crate::rules::blocks::expected_code_style(nodes, config) == want);
    let g = crate::rules::blocks::node_each(RuleId::CodeBlockStyle, nodes, want);
    let r = spec_check(RuleId::CodeBlockStyle, doc, source, config);
    assert(r.contains(r[i]));
    lemma_concat_upto_from(nodes.len() as int, g, r[i]);
    let k = choose|k: int| 0 <= k < nodes.len() && (#[trigger] g(k)).contains(r[i]);
    assert(g(k).len() > 0);
    assert(r[i] == block_style_finding(nodes[k], want));
}

// ---------------------------------------------------------------------------------------------
// code_fence_style

/// Whether node `f` is the first fenced code block whose fence character the source shows.
pub open spec fn first_fence(nodes: Seq<DocNode>, ls: Seq<Seq<char>>, f: int) -> bool {
    &&& 0 <= f < nodes.len()
    &&& crate::rules::markers::fence_char(nodes, ls, f) is Some
    &&& forall|j: int| 0 <= j < f ==> (#[trigger] crate::rules::markers::fence_char(nodes, ls, j)) is None
}

/// The fence character every block is held to: the one the `style` option names
/// (`backtick` or `tilde`), else that of the first fenced block, `f`.
pub open spec fn wanted_fence(nodes: Seq<DocNode>, ls: Seq<Seq<char>>, config: LintConfig, f: int) -> char {
    match crate::config::as_text(config.spec_rule_option(RuleId::CodeFenceStyle, "style"@)) {
        Some(s) => if s == "backtick"@ {
            '`'
        } else if s == "tilde"@ {
            '~'
        } else {
            crate::rules::markers::fence_char(nodes, ls, f).unwrap()
        },
        None => crate::rules::markers::fence_char(nodes, ls, f).unwrap(),
    }
}

proof fn lemma_first_fence(nodes: Seq<DocNode>, ls: Seq<Seq<char>>, f: int, j: int)
    requires
        first_fence(nodes, ls, f),
        0 <= j <= f,
    ensures
        crate::rules::markers::first_fence_char(nodes, ls, j) == crate::rules::markers::fence_char(nodes, ls, f),
    decreases f - j,
{
    if j < f {
        assert(crate::rules::markers::fence_char(nodes, ls, j) is None);
        lemma_first_fence(nodes, ls, f, j + 1);
    }
}

/// Every fenced code block whose fence character is not the one blocks are held to (the
/// configured one, else the first block's) is flagged, naming the expected character.
pub proof fn law_off_style_fence_is_flagged(
    doc: Document,
    source: Seq<char>,
    config: LintConfig,
    f: int,
    k: int,
    c: char,
)
    requires
        first_fence(doc.nodes@, spec_lines(source), f),
        0 <= k < doc.nodes@.len(),
        crate::rules::markers::fence_char(doc.nodes@, spec_lines(source), k) == Some(c),
        c != wanted_fence(doc.nodes@, spec_lines(source), config, f),
    ensures
        spec_check(RuleId::CodeFenceStyle, doc, source, config).contains(
            finding(
                LintMessage::CodeFenceStyle { expected: wanted_fence(doc.nodes@, spec_lines(source), config, f) },
                doc.nodes@[k].position,
                None,
            ),
        ),
{
    let nodes = doc.nodes@;
    let ls = spec_lines(source);
    lemma_first_fence(nodes, ls, f, 0);
    let want = wanted_fence(nodes, ls, config, f);
    assert(crate::rules::markers::expected_fence(nodes, ls, config) == Some(want));
    let g = crate::rules::markers::fence_each(nodes, ls, Some(want));
    let x = finding(LintMessage::CodeFenceStyle { expected: want }, nodes[k].position, None);
    assert(g(k) =~= seq![x]);
    assert(g(k)[0] == x);
    lemma_concat_upto_has(nodes.len() as int, g, k, x);
}

/// Every `code_fence_style` finding is that of a fenced block whose fence character is not
/// the one blocks are held to (so with no option, the first fenced block is never flagged).
pub proof fn law_fence_findings_are_off_style(
    doc: Document,
    source: Seq<char>,
    config: LintConfig,
    f: int,
    i: int,
)
    requires
        first_fence(doc.nodes@, spec_lines(source), f),
        0 <= i < spec_check(RuleId::CodeFenceStyle, doc, source, config).len(),
    ensures
        exists|k: int|
            0 <= k < doc.nodes@.len() && (#[trigger] crate::rules::markers::fence_char(doc.nodes@, spec_lines(source), k)) is Some
                && crate::rules::markers::fence_char(doc.nodes@, spec_lines(source), k).unwrap()
                != wanted_fence(doc.nodes@, spec_lines(source), config, f) && spec_check(
                RuleId::CodeFenceStyle,
                doc,
                source,
                config,
            )[i] == finding(
                LintMessage::CodeFenceStyle { expected: wanted_fence(doc.nodes@, spec_lines(source), config, f) },
                doc.nodes@[k].position,
                None,
            ),
{
    let nodes = doc.nodes@;
    let ls = spec_lines(source);
    lemma_first_fence(nodes, ls, f, 0);
    let want = wanted_fence(nodes, ls, config, f);
    assert(crate::rules::markers::expected_fence(nodes, ls, config) == Some(want));
    let g = crate::rules::markers::fence_each(nodes, ls, Some(want));
    let r = spec_check(RuleId::CodeFenceStyle, doc, source, config);
    assert(r.contains(r[i]));
    lemma_concat_upto_from(nodes.len() as int, g, r[i]);
    let k = choose|k: int| 0 <= k < nodes.len() && (#[trigger] g(k)).contains(r[i]);
    assert(g(k).len() > 0);
    assert(r[i] == finding(LintMessage::CodeFenceStyle { expected: want }, nodes[k].position, None));
}

// ---------------------------------------------------------------------------------------------
// hr_style

/// Whether node `f` is the first horizontal rule whose source line is known.
pub open spec fn first_rule_line(nodes: Seq<DocNode>, ls: Seq<Seq<char>>, f: int) -> bool {
    &&& 0 <= f < nodes.len()
    &&& crate::rules::markers::hr_line(nodes, ls, f) is Some
    &&& forall|j: int| 0 <= j < f ==> (#[trigger] crate::rules::markers::hr_line(nodes, ls, j)) is None
}

/// The text every horizontal rule is held to: the `style` option, else the first rule's
/// own, trimmed.
pub open spec fn wanted_rule(nodes: Seq<DocNode>, ls: Seq<Seq<char>>, config: LintConfig, f: int) -> Seq<char> {
    match crate::config::as_text(config.spec_rule_option(RuleId::HrStyle, "style"@)) {
        Some(s) => s,
        None => crate::text::trim(crate::rules::markers::hr_line(nodes, ls, f).unwrap().1),
    }
}

/// The finding for the horizontal rule on line `n`, `line`, when rules should read
/// `expected`: the whole line, rewritten to `expected`.
pub open spec fn rule_finding(n: int, line: Seq<char>, expected: Seq<char>) -> DiagView {
    let range = line_range(n, 1, line.len() + 1int);
    DiagView {
        rule: RuleId::HrStyle,
        text: "horizontal rule `"@ + crate::text::trim(line) + "`, expected `"@ + expected
            + "` (for consistency)"@,
        severity: spec_default_severity(RuleId::HrStyle),
        range: Some(range),
        fix: Some((range, expected)),
    }
}

proof fn lemma_first_rule_line(nodes: Seq<DocNode>, ls: Seq<Seq<char>>, f: int, j: int)
    requires
        first_rule_line(nodes, ls, f),
        0 <= j <= f,
    ensures
        crate::rules::markers::first_hr_style(nodes, ls, j) == Some(
            crate::text::trim(crate::rules::markers::hr_line(nodes, ls, f).unwrap().1),
        ),
    decreases f - j,
{
    if j < f {
        assert(crate::rules::markers::hr_line(nodes, ls, j) is None);
        lemma_first_rule_line(nodes, ls, f, j + 1);
    }
}

/// Every horizontal rule whose text (trimmed) is not the one rules are held to (the
/// configured one, else the first rule's) is flagged, with a fix that rewrites it.
pub proof fn law_off_style_rule_is_flagged(
    doc: Document,
    source: Seq<char>,
    config: LintConfig,
    f: int,
    k: int,
    n: int,
    line: Seq<char>,
)
    requires
        first_rule_line(doc.nodes@, spec_lines(source), f),
        0 <= k < doc.nodes@.len(),
        crate::rules::markers::hr_line(doc.nodes@, spec_lines(source), k) == Some((n, line)),
        crate::text::trim(line) != wanted_rule(doc.nodes@, spec_lines(source), config, f),
    ensures
        spec_check(RuleId::HrStyle, doc, source, config).contains(
            rule_finding(n, line, wanted_rule(doc.nodes@, spec_lines(source), config, f)),
        ),
{
    let nodes = doc.nodes@;
    let ls = spec_lines(source);
    lemma_first_rule_line(nodes, ls, f, 0);
    let want = wanted_rule(nodes, ls, config, f);
    assert(crate::rules::markers::expected_hr(nodes, ls, config) == Some(want));
    let g = crate::rules::markers::hr_each(nodes, ls, Some(want));
    let x = rule_finding(n, line, want);
    assert(g(k) =~= seq![x]);
    assert(g(k)[0] == x);
    lemma_concat_upto_has(nodes.len() as int, g, k, x);
}

/// Every `hr_style` finding is that of a horizontal rule whose text is not the one rules are
/// held to (so with no option, the first rule is never flagged).
pub proof fn law_rule_findings_are_off_style(
    doc: Document,
    source: Seq<char>,
    config: LintConfig,
    f: int,
    i: int,
)
    requires
        first_rule_line(doc.nodes@, spec_lines(source), f),
        0 <= i < spec_check(RuleId::HrStyle, doc, source, config).len(),
    ensures
        exists|k: int, n: int, line: Seq<char>|
            #![trigger crate::rules::markers::hr_line(doc.nodes@, spec_lines(source), k), rule_finding(n, line, wanted_rule(doc.nodes@, spec_lines(source), config, f))]
            0 <= k < doc.nodes@.len() && crate::rules::markers::hr_line(doc.nodes@, spec_lines(source), k)
                == Some((n, line)) && crate::text::trim(line) != wanted_rule(
                doc.nodes@,
                spec_lines(source),
                config,
                f,
            ) && spec_check(RuleId::HrStyle, doc, source, config)[i] == rule_finding(
                n,
                line,
                wanted_rule(doc.nodes@, spec_lines(source), config, f),
            ),
{
    let nodes = doc.nodes@;
    let ls = spec_lines(source);
    lemma_first_rule_line(nodes, ls, f, 0);
    let want = wanted_rule(nodes, ls, config, f);
    assert(crate::rules::markers::expected_hr(nodes, ls, config) == Some(want));
    let g = crate::rules::markers::hr_each(nodes, ls, Some(want));
    let r = spec_check(RuleId::HrStyle, doc, source, config);
    assert(r.contains(r[i]));
    lemma_concat_upto_from(nodes.len() as int, g, r[i]);
    let k = choose|k: int| 0 <= k < nodes.len() && (#[trigger] g(k)).contains(r[i]);
    assert(g(k).len() > 0);
    let (n, line) = crate::rules::markers::hr_line(nodes, ls, k).unwrap();
    assert(r[i] == rule_finding(n, line, want));
}

// ---------------------------------------------------------------------------------------------
// link_image_reference_definitions

/// Whether node `m` is a link or image reference whose identifier matches `ident` when both
/// are lowercased.
pub open spec fn reference_to(n: DocNode, ident: Seq<char>) -> bool {
    (n.kind == NodeKind::LinkRef || n.kind == NodeKind::ImageRef) && crate::text::lowercased(n.ident@)
        == crate::text::lowercased(ident)
}

/// Whether no node of `nodes` (before or after the definition alike) is a reference to
/// `ident`.
pub open spec fn never_referenced(nodes: Seq<DocNode>, ident: Seq<char>) -> bool {
    forall|m: int| 0 <= m < nodes.len() ==> !reference_to(#[trigger] nodes[m], ident)
}

/// Every reference definition that no link or image reference anywhere in the document uses
/// is flagged at its position.
pub proof fn law_unused_definition_is_flagged(doc: Document, source: Seq<char>, config: LintConfig, k: int)
    requires
        0 <= k < doc.nodes@.len(),
        doc.nodes@[k].kind == NodeKind::Definition,
        never_referenced(doc.nodes@, doc.nodes@[k].ident@),
    ensures
        exists|x: DiagView|
            #[trigger] spec_check(RuleId::LinkImageReferenceDefinitions, doc, source, config).contains(x)
                && x.rule == RuleId::LinkImageReferenceDefinitions && x.range == doc.nodes@[k].position,
{
    let nodes = doc.nodes@;
    let total = spec_lines(source).len() as int;
    let ident = crate::text::lowercased(nodes[k].ident@);
    assert(!crate::rules::links::reference_used(nodes, ident)) by {
        if crate::rules::links::used_before(nodes, nodes.len() as int, ident) {
            let m = choose|m: int| 0 <= m < nodes.len() && crate::rules::links::refers_to(#[trigger] nodes[m], ident);
            assert(reference_to(nodes[m], nodes[k].ident@));
        }
    }
    let g = crate::rules::links::unused_definition_each(nodes, total);
    assert(g(k).len() == 1);
    let x = g(k)[0];
    assert(x.rule == RuleId::LinkImageReferenceDefinitions && x.range == nodes[k].position);
    assert(g(k).contains(x));
    lemma_concat_upto_has(nodes.len() as int, g, k, x);
    assert(spec_check(RuleId::LinkImageReferenceDefinitions, doc, source, config).contains(x));
}

/// Every `link_image_reference_definitions` finding is that of a definition that no link or
/// image reference anywhere in the document uses (a reference after the definition counts as
/// much as one before it).
pub proof fn law_definition_findings_are_unused(doc: Document, source: Seq<char>, config: LintConfig, i: int)
    requires
        0 <= i < spec_check(RuleId::LinkImageReferenceDefinitions, doc, source, config).len(),
    ensures
        exists|k: int|
            0 <= k < doc.nodes@.len() && (#[trigger] doc.nodes@[k]).kind == NodeKind::Definition
                && never_referenced(doc.nodes@, doc.nodes@[k].ident@) && spec_check(
                RuleId::LinkImageReferenceDefinitions,
                doc,
                source,
                config,
            )[i].range == doc.nodes@[k].position,
{
    let nodes = doc.nodes@;
    let total = spec_lines(source).len() as int;
    let g = crate::rules::links::unused_definition_each(nodes, total);
    let r = spec_check(RuleId::LinkImageReferenceDefinitions, doc, source, config);
    assert(r.contains(r[i]));
    lemma_concat_upto_from(nodes.len() as int, g, r[i]);
    let k = choose|k: int| 0 <= k < nodes.len() && (#[trigger] g(k)).contains(r[i]);
    assert(g(k).len() > 0);
    let ident = crate::text::lowercased(nodes[k].ident@);
    assert forall|m: int| 0 <= m < nodes.len() implies !reference_to(#[trigger] nodes[m], nodes[k].ident@) by {
        if reference_to(nodes[m], nodes[k].ident@) {
            assert(crate::rules::links::refers_to(nodes[m], ident));
        }
    }
    assert(r[i].range == nodes[k].position);
}

// ---------------------------------------------------------------------------------------------
// no_inline_html

/// Whether element name `tag` is one of the `allowed` option's names, ignoring ASCII case.
pub open spec fn tag_allowed(config: LintConfig, tag: Seq<char>) -> bool {
    exists|j: int|
        0 <= j < crate::rules::links::allowed_html_option(config).len()
            && crate::rules::links::eq_ignore_ascii_case(
            #[trigger] crate::rules::links::allowed_html_option(config)[j],
            tag,
        )
}

/// The finding for raw HTML node `n` whose element is named `tag`.
pub open spec fn html_report(n: DocNode, tag: Seq<char>) -> DiagView {
    DiagView {
        rule: RuleId::NoInlineHtml,
        text: "inline HTML element `<"@ + tag + ">`"@,
        severity: spec_default_severity(RuleId::NoInlineHtml),
        range: n.position,
        fix: None,
    }
}

/// Every raw HTML element whose name the `allowed` option does not list (in any case) is
/// flagged, naming it.
pub proof fn law_disallowed_html_is_flagged(
    doc: Document,
    source: Seq<char>,
    config: LintConfig,
    k: int,
    tag: Seq<char>,
)
    requires
        0 <= k < doc.nodes@.len(),
        doc.nodes@[k].kind == NodeKind::Html,
        crate::rules::links::tag_name(doc.nodes@[k].value@) == Some(tag),
        !tag_allowed(config, tag),
    ensures
        spec_check(RuleId::NoInlineHtml, doc, source, config).contains(html_report(doc.nodes@[k], tag)),
{
    let nodes = doc.nodes@;
    let g = crate::rules::links::html_each(nodes, crate::rules::links::allowed_html_option(config));
    let x = html_report(nodes[k], tag);
    assert(g(k) =~= seq![x]);
    assert(g(k)[0] == x);
    lemma_concat_upto_has(nodes.len() as int, g, k, x);
}

/// Every `no_inline_html` finding is that of a raw HTML element whose name the `allowed`
/// option does not list.
pub proof fn law_html_findings_are_disallowed(doc: Document, source: Seq<char>, config: LintConfig, i: int)
    requires
        0 <= i < spec_check(RuleId::NoInlineHtml, doc, source, config).len(),
    ensures
        exists|k: int, tag: Seq<char>|
            #![trigger doc.nodes@[k], html_report(doc.nodes@[k], tag)]
            0 <= k < doc.nodes@.len() && doc.nodes@[k].kind == NodeKind::Html
                && crate::rules::links::tag_name(doc.nodes@[k].value@) == Some(tag) && !tag_allowed(config, tag)
                && spec_check(RuleId::NoInlineHtml, doc, source, config)[i] == html_report(doc.nodes@[k], tag),
{
    let nodes = doc.nodes@;
    let g = crate::rules::links::html_each(nodes, crate::rules::links::allowed_html_option(config));
    let r = spec_check(RuleId::NoInlineHtml, doc, source, config);
    assert(r.contains(r[i]));
    lemma_concat_upto_from(nodes.len() as int, g, r[i]);
    let k = choose|k: int| 0 <= k < nodes.len() && (#[trigger] g(k)).contains(r[i]);
    assert(g(k).len() > 0);
    let tag = crate::rules::links::tag_name(nodes[k].value@).unwrap();
    assert(r[i] == html_report(nodes[k], tag));
}

// ---------------------------------------------------------------------------------------------
// blanks_around_headings, blanks_around_fences

/// The rule that wants blank lines around headings (`headings`) or around fenced code blocks.
pub open spec fn around_rule(headings: bool) -> RuleId {
    if headings {
        RuleId::BlanksAroundHeadings
    } else {
        RuleId::BlanksAroundFences
    }
}

/// Whether node `n` is one that rule checks: a heading, or a fenced code block.
pub open spec fn around_node(headings: bool, n: DocNode) -> bool {
    if headings {
        n.kind == NodeKind::Heading
    } else {
        n.kind == NodeKind::Code && n.fence
    }
}

/// The message for a missing blank line above (`above`) or below the block.
pub open spec fn around_message(headings: bool, above: bool) -> LintMessage {
    if headings {
        LintMessage::BlanksAroundHeadings { above }
    } else {
        LintMessage::BlanksAroundFences { above }
    }
}

/// The finding for a block starting on line `s` with a non-blank line above it: at the
/// block's start, fixed by inserting a line break there.
pub open spec fn missing_above(headings: bool, s: int) -> DiagView {
    let at = crate::rules::blocks::point(s, 1);
    finding(around_message(headings, true), Some(at), Some((at, seq!['\n'])))
}

/// The finding for a block ending on line `e` (of `ls`) with a non-blank line below it: at
/// the end of its last line, fixed by inserting a line break before the next line.
pub open spec fn missing_below(headings: bool, ls: Seq<Seq<char>>, e: int) -> DiagView {
    finding(
        around_message(headings, false),
        Some(crate::rules::blocks::point(e, ls[e - 1].len() + 1int)),
        Some((crate::rules::blocks::point(e + 1, 1), seq!['\n'])),
    )
}

proof fn lemma_around_dispatch(headings: bool, doc: Document, source: Seq<char>, config: LintConfig)
    ensures
        spec_check(around_rule(headings), doc, source, config) == crate::rules::blocks::spec_blanks_around_nodes(
            if headings {
                crate::rules::blocks::BlankAround::Headings
            } else {
                crate::rules::blocks::BlankAround::Fences
            },
            doc.nodes@,
            source,
        ),
        forall|n: DocNode|
            crate::rules::blocks::checked_block(
                if headings {
                    crate::rules::blocks::BlankAround::Headings
                } else {
                    crate::rules::blocks::BlankAround::Fences
                },
                n,
            ) == around_node(headings, n),
        forall|above: bool|
            crate::rules::blocks::blank_message(
                if headings {
                    crate::rules::blocks::BlankAround::Headings
                } else {
                    crate::rules::blocks::BlankAround::Fences
                },
                above,
            ) == around_message(headings, above),
{
}

/// Every heading (fenced code block) whose line above is not blank is flagged at its start,
/// with a line break to insert there.
pub proof fn law_no_blank_above_is_flagged(
    headings: bool,
    doc: Document,
    source: Seq<char>,
    config: LintConfig,
    k: int,
    p: Range,
)
    requires
        0 <= k < doc.nodes@.len(),
        around_node(headings, doc.nodes@[k]),
        doc.nodes@[k].position == Some(p),
        2 <= p.start_line <= spec_lines(source).len() + 1,
        !blank(spec_lines(source)[p.start_line - 2]),
    ensures
        spec_check(around_rule(headings), doc, source, config).contains(missing_above(headings, p.start_line as int)),
{
    let which = if headings {
        crate::rules::blocks::BlankAround::Headings
    } else {
        crate::rules::blocks::BlankAround::Fences
    };
    lemma_around_dispatch(headings, doc, source, config);
    let nodes = doc.nodes@;
    let ls = spec_lines(source);
    let g = crate::rules::blocks::node_blank_each(which, nodes, ls);
    let x = missing_above(headings, p.start_line as int);
    let a = crate::rules::blocks::blank_above(which, ls, Some(p.start_line as int));
    let b = crate::rules::blocks::blank_below(which, ls, Some(p.end_line as int));
    assert(a =~= seq![x]);
    assert(g(k) == a + b);
    assert(g(k)[0] == x);
    lemma_concat_upto_has(nodes.len() as int, g, k, x);
}

/// Every heading (fenced code block) whose line below is not blank is flagged at the end of
/// its last line, with a line break to insert before the next line.
pub proof fn law_no_blank_below_is_flagged(
    headings: bool,
    doc: Document,
    source: Seq<char>,
    config: LintConfig,
    k: int,
    p: Range,
)
    requires
        0 <= k < doc.nodes@.len(),
        around_node(headings, doc.nodes@[k]),
        doc.nodes@[k].position == Some(p),
        1 <= p.end_line < spec_lines(source).len(),
        !blank(spec_lines(source)[p.end_line as int]),
    ensures
        spec_check(around_rule(headings), doc, source, config).contains(
            missing_below(headings, spec_lines(source), p.end_line as int),
        ),
{
    let which = if headings {
        crate::rules::blocks::BlankAround::Headings
    } else {
        crate::rules::blocks::BlankAround::Fences
    };
    lemma_around_dispatch(headings, doc, source, config);
    let nodes = doc.nodes@;
    let ls = spec_lines(source);
    let g = crate::rules::blocks::node_blank_each(which, nodes, ls);
    let x = missing_below(headings, ls, p.end_line as int);
    let a = crate::rules::blocks::blank_above(which, ls, Some(p.start_line as int));
    let b = crate::rules::blocks::blank_below(which, ls, Some(p.end_line as int));
    assert(b =~= seq![x]);
    assert(g(k) == a + b);
    assert(g(k)[a.len() as int] == x);
    lemma_concat_upto_has(nodes.len() as int, g, k, x);
}

/// Every finding of these rules is a missing blank line above or below a heading (fenced
/// code block) whose neighbouring line is not blank.
pub proof fn law_around_findings_are_missing_blanks(
    headings: bool,
    doc: Document,
    source: Seq<char>,
    config: LintConfig,
    i: int,
)
    requires
        0 <= i < spec_check(around_rule(headings), doc, source, config).len(),
    ensures
        exists|k: int, p: Range|
            #![trigger doc.nodes@[k], around_node(headings, doc.nodes@[k]), p.start_line]
            0 <= k < doc.nodes@.len() && around_node(headings, doc.nodes@[k]) && doc.nodes@[k].position
                == Some(p) && ({
                ||| (2 <= p.start_line <= spec_lines(source).len() + 1 && !blank(
                    spec_lines(source)[p.start_line - 2],
                ) && spec_check(around_rule(headings), doc, source, config)[i] == missing_above(
                    headings,
                    p.start_line as int,
                ))
                ||| (1 <= p.end_line < spec_lines(source).len() && !blank(spec_lines(source)[p.end_line as int])
                    && spec_check(around_rule(headings), doc, source, config)[i] == missing_below(
                    headings,
                    spec_lines(source),
                    p.end_line as int,
                ))
            }),
{
    let which = if headings {
        crate::rules::blocks::BlankAround::Headings
    } else {
        crate::rules::blocks::BlankAround::Fences
    };
    lemma_around_dispatch(headings, doc, source, config);
    let nodes = doc.nodes@;
    let ls = spec_lines(source);
    let g = crate::rules::blocks::node_blank_each(which, nodes, ls);
    let r = spec_check(around_rule(headings), doc, source, config);
    assert(r.contains(r[i]));
    lemma_concat_upto_from(nodes.len() as int, g, r[i]);
    let k = choose|k: int| 0 <= k < nodes.len() && (#[trigger] g(k)).contains(r[i]);
    assert(g(k).len() > 0);
    let p = nodes[k].position.unwrap();
    let a = crate::rules::blocks::blank_above(which, ls, Some(p.start_line as int));
    let b = crate::rules::blocks::blank_below(which, ls, Some(p.end_line as int));
    assert(g(k) == a + b);
    let gk = g(k);
    let q = choose|q: int| 0 <= q < gk.len() && #[trigger] gk[q] == r[i];
    if q < a.len() {
        assert(a[q] == r[i]);
        assert(r[i] == missing_above(headings, p.start_line as int));
    } else {
        assert(b[q - a.len()] == r[i]);
        assert(r[i] == missing_below(headings, ls, p.end_line as int));
    }
    assert(around_node(headings, nodes[k]));
}

// ---------------------------------------------------------------------------------------------
// no_multiple_space_blockquote

/// Whether `line` is `w` whitespace characters, a `>`, then exactly `g` spaces.
pub open spec fn quote_opening(line: Seq<char>, w: int, g: int) -> bool {
    &&& leading_blanks(line, w)
    &&& 0 <= g
    &&& w + 1 + g <= line.len()
    &&& line[w] == '>'
    &&& forall|j: int| w + 1 <= j < w + 1 + g ==> #[trigger] line[j] == ' '
    &&& w + 1 + g == line.len() || line[w + 1 + g] != ' '
}

/// The finding for the `g` spaces after the `>` at column `w` of line `n`: replaced by one.
pub open spec fn quote_gap_at(n: int, w: int, g: int) -> DiagView {
    let range = line_range(n, w + 2, w + 2 + g);
    finding(LintMessage::NoMultipleSpaceBlockquote, Some(range), Some((range, seq![' '])))
}

proof fn lemma_quote_counts(line: Seq<char>, w: int, g: int)
    requires
        quote_opening(line, w, g),
    ensures
        crate::rules::markers::indent_of(line) == w,
        crate::text::trim_start(line) == line.skip(w),
        crate::text::count_while(line.skip(w).skip(1), crate::text::CharClass::Exactly(' ')) == g,
{
    let ws = crate::text::CharClass::Whitespace;
    let sp = crate::text::CharClass::Exactly(' ');
    assert forall|j: int| 0 <= j < w implies crate::text::in_class(#[trigger] line[j], ws) by {
        assert(is_ws(line[j]));
    }
    crate::text::lemma_count_while_is(line, ws, w);
    let u = line.skip(w).skip(1);
    assert forall|j: int| 0 <= j < g implies crate::text::in_class(#[trigger] u[j], sp) by {
        assert(u[j] == line[w + 1 + j]);
    }
    if g < u.len() {
        assert(u[g] == line[w + 1 + g]);
    }
    crate::text::lemma_count_while_is(u, sp, g);
}

/// Every line inside a blockquote whose `>` is followed by two or more spaces is flagged over
/// those spaces.
pub proof fn law_quote_extra_spaces_are_flagged(
    doc: Document,
    source: Seq<char>,
    config: LintConfig,
    j: int,
    w: int,
    g: int,
)
    requires
        0 <= j < spec_lines(source).len(),
        crate::rules::markers::in_blockquote(doc.nodes@, j + 1),
        quote_opening(spec_lines(source)[j], w, g),
        g >= 2,
    ensures
        spec_check(RuleId::NoMultipleSpaceBlockquote, doc, source, config).contains(quote_gap_at(j + 1, w, g)),
{
    let ls = spec_lines(source);
    lemma_quote_counts(ls[j], w, g);
    let t = crate::text::trim_start(ls[j]);
    assert(t[0] == ls[j][w]);
    let f = crate::rules::markers::quote_spaces_each(ls, doc.nodes@);
    let x = quote_gap_at(j + 1, w, g);
    assert(f(j) =~= seq![x]);
    assert(f(j)[0] == x);
    lemma_concat_upto_has(ls.len() as int, f, j, x);
}

/// Every `no_multiple_space_blockquote` finding is that of a line inside a blockquote whose
/// `>` is followed by two or more spaces.
pub proof fn law_quote_space_findings_are_gaps(doc: Document, source: Seq<char>, config: LintConfig, i: int)
    requires
        0 <= i < spec_check(RuleId::NoMultipleSpaceBlockquote, doc, source, config).len(),
    ensures
        exists|j: int, w: int, g: int|
            #![trigger quote_opening(spec_lines(source)[j], w, g)]
            0 <= j < spec_lines(source).len() && crate::rules::markers::in_blockquote(doc.nodes@, j + 1)
                && quote_opening(spec_lines(source)[j], w, g) && g >= 2 && spec_check(
                RuleId::NoMultipleSpaceBlockquote,
                doc,
                source,
                config,
            )[i] == quote_gap_at(j + 1, w, g),
{
    let ls = spec_lines(source);
    let f = crate::rules::markers::quote_spaces_each(ls, doc.nodes@);
    let r = spec_check(RuleId::NoMultipleSpaceBlockquote, doc, source, config);
    assert(r.contains(r[i]));
    lemma_concat_upto_from(ls.len() as int, f, r[i]);
    let j = choose|j: int| 0 <= j < ls.len() && (#[trigger] f(j)).contains(r[i]);
    assert(f(j).len() > 0);
    let line = ls[j];
    let ws = crate::text::CharClass::Whitespace;
    let sp = crate::text::CharClass::Exactly(' ');
    crate::text::lemma_count_while_bounds(line, ws);
    let w = crate::text::count_while(line, ws) as int;
    let t = crate::text::trim_start(line);
    let u = t.skip(1);
    crate::text::lemma_count_while_bounds(u, sp);
    let g = crate::text::count_while(u, sp) as int;
    assert(line[w] == t[0]);
    assert forall|q: int| w + 1 <= q < w + 1 + g implies #[trigger] line[q] == ' ' by {
        assert(line[q] == u[q - w - 1]);
        assert(crate::text::in_class(u[q - w - 1], sp));
    }
    if w + 1 + g < line.len() {
        assert(line[w + 1 + g] == u[g]);
    }
    assert(leading_blanks(line, w));
    assert(quote_opening(line, w, g));
    assert(r[i] == quote_gap_at(j + 1, w, g));
}

// ---------------------------------------------------------------------------------------------
// list_marker_space

/// Whether top-level list item line `line` is `w` whitespace characters, a marker of `m`
/// characters, then exactly `g` spaces, with text somewhere after the marker.
pub open spec fn item_opening(line: Seq<char>, w: int, m: int, g: int) -> bool {
    &&& leading_blanks(line, w)
    &&& crate::rules::markers::marker_len(line) == Some(m)
    &&& 0 <= g
    &&& w + m + g <= line.len()
    &&& forall|j: int| w + m <= j < w + m + g ==> #[trigger] line[j] == ' '
    &&& w + m + g == line.len() || line[w + m + g] != ' '
    &&& crate::text::trim(line.skip(w + m)).len() > 0
}

/// The finding for the `g` spaces after the marker of the item on line `n`: set to
/// `expected` spaces.
pub open spec fn item_gap_at(n: int, w: int, m: int, g: int, expected: nat) -> DiagView {
    let range = line_range(n, w + m + 1, w + m + 1 + g);
    finding(
        LintMessage::ListMarkerSpace { expected: expected as usize, found: g as usize },
        Some(range),
        Some((range, spaces(expected))),
    )
}

/// Every top-level list item with text after its marker and a number of spaces after the
/// marker other than the `spaces` option (default one) is flagged, with a fix that sets them.
pub proof fn law_item_spacing_is_flagged(
    doc: Document,
    source: Seq<char>,
    config: LintConfig,
    i: int,
    n: int,
    line: Seq<char>,
    w: int,
    m: int,
    g: int,
)
    requires
        0 <= i < doc.top@.len(),
        crate::rules::markers::item_line(doc.top@, spec_lines(source), i) == Some((n, line)),
        item_opening(line, w, m, g),
        g != crate::rules::markers::marker_spaces_option(config),
    ensures
        spec_check(RuleId::ListMarkerSpace, doc, source, config).contains(
            item_gap_at(n, w, m, g, crate::rules::markers::marker_spaces_option(config)),
        ),
{
    let top = doc.top@;
    let ls = spec_lines(source);
    let ws = crate::text::CharClass::Whitespace;
    let sp = crate::text::CharClass::Exactly(' ');
    assert forall|j: int| 0 <= j < w implies crate::text::in_class(#[trigger] line[j], ws) by {
        assert(is_ws(line[j]));
    }
    crate::text::lemma_count_while_is(line, ws, w);
    let after = line.skip(w + m);
    assert forall|j: int| 0 <= j < g implies crate::text::in_class(#[trigger] after[j], sp) by {
        assert(after[j] == line[w + m + j]);
    }
    if g < after.len() {
        assert(after[g] == line[w + m + g]);
    }
    crate::text::lemma_count_while_is(after, sp, g);
    let expected = crate::rules::markers::marker_spaces_option(config);
    let f = crate::rules::markers::marker_space_each(top, ls, expected);
    let x = item_gap_at(n, w, m, g, expected);
    assert(f(i) =~= seq![x]);
    assert(f(i)[0] == x);
    lemma_concat_upto_has(top.len() as int, f, i, x);
}

/// Every `list_marker_space` finding is that of a top-level list item with text after its
/// marker and a number of spaces after the marker other than the `spaces` option.
pub proof fn law_item_spacing_findings_are_off(doc: Document, source: Seq<char>, config: LintConfig, q: int)
    requires
        0 <= q < spec_check(RuleId::ListMarkerSpace, doc, source, config).len(),
    ensures
        exists|i: int, n: int, line: Seq<char>, w: int, m: int, g: int|
            #![trigger crate::rules::markers::item_line(doc.top@, spec_lines(source), i), item_opening(line, w, m, g), item_gap_at(n, w, m, g, crate::rules::markers::marker_spaces_option(config))]
            0 <= i < doc.top@.len() && crate::rules::markers::item_line(doc.top@, spec_lines(source), i)
                == Some((n, line)) && item_opening(line, w, m, g) && g
                != crate::rules::markers::marker_spaces_option(config) && spec_check(
                RuleId::ListMarkerSpace,
                doc,
                source,
                config,
            )[q] == item_gap_at(n, w, m, g, crate::rules::markers::marker_spaces_option(config)),
{
    let top = doc.top@;
    let ls = spec_lines(source);
    let expected = crate::rules::markers::marker_spaces_option(config);
    let f = crate::rules::markers::marker_space_each(top, ls, expected);
    let r = spec_check(RuleId::ListMarkerSpace, doc, source, config);
    assert(r.contains(r[q]));
    lemma_concat_upto_from(top.len() as int, f, r[q]);
    let i = choose|i: int| 0 <= i < top.len() && (#[trigger] f(i)).contains(r[q]);
    assert(f(i).len() > 0);
    let (n, line) = crate::rules::markers::item_line(top, ls, i).unwrap();
    let m = crate::rules::markers::marker_len(line).unwrap();
    let ws = crate::text::CharClass::Whitespace;
    let sp = crate::text::CharClass::Exactly(' ');
    crate::text::lemma_count_while_bounds(line, ws);
    let w = crate::text::count_while(line, ws) as int;
    let after = line.skip(w + m);
    crate::text::lemma_count_while_bounds(after, sp);
    let g = crate::text::count_while(after, sp) as int;
    assert forall|j: int| w + m <= j < w + m + g implies #[trigger] line[j] == ' ' by {
        assert(line[j] == after[j - w - m]);
        assert(crate::text::in_class(after[j - w - m], sp));
    }
    if w + m + g < line.len() {
        assert(line[w + m + g] == after[g]);
    }
    assert(leading_blanks(line, w));
    assert(item_opening(line, w, m, g));
    assert(r[q] == item_gap_at(n, w, m, g, expected));
}

// ---------------------------------------------------------------------------------------------
// no_space_in_code

/// Whether code span text `raw` opens with exactly `t` backticks and is long enough to close
/// with as many.
pub open spec fn span_ticks(raw: Seq<char>, t: int) -> bool {
    &&& 1 <= t
    &&& 2 * t <= raw.len()
    &&& forall|j: int| 0 <= j < t ==> #[trigger] raw[j] == '`'
    &&& t == raw.len() || raw[t] != '`'
}

/// Whether code content `inner` has a space just inside one of its ends while not being
/// all spaces.
pub open spec fn padded(inner: Seq<char>) -> bool {
    &&& inner.len() > 0
    &&& inner[0] == ' ' || inner.last() == ' '
    &&& exists|j: int| 0 <= j < inner.len() && #[trigger] inner[j] != ' '
}

/// The finding for a code span at `r` opened by `t` backticks around `inner`: the content
/// between the backticks, fixed by its text without the padding spaces.
pub open spec fn code_span_at(r: Range, t: int, inner: Seq<char>) -> DiagView {
    let range = line_range(r.start_line as int, r.start_column + t, r.end_column - t);
    finding(
        LintMessage::NoSpaceInCode,
        Some(range),
        Some((range, crate::rules::spans::trim_spaces(inner))),
    )
}

/// Trimming the spaces off the ends of `inner` changes it and leaves something exactly when
/// it is padded.
proof fn lemma_padded(inner: Seq<char>)
    ensures
        padded(inner) <==> (inner != crate::rules::spans::trim_spaces(inner)
            && crate::rules::spans::trim_spaces(inner).len() > 0),
{
    let sp = crate::text::CharClass::Exactly(' ');
    crate::text::lemma_count_while_bounds(inner, sp);
    let c1 = crate::text::count_while(inner, sp) as int;
    let a = inner.skip(c1);
    crate::text::lemma_count_while_rev_bounds(a, sp);
    let c2 = crate::text::count_while_rev(a, sp) as int;
    let tr = crate::rules::spans::trim_spaces(inner);
    assert(tr == a.take(a.len() - c2));
    if padded(inner) {
        let j = choose|j: int| 0 <= j < inner.len() && #[trigger] inner[j] != ' ';
        assert(c1 <= j) by {
            if c1 > j {
                assert(crate::text::in_class(inner[j], sp));
            }
        }
        assert(a[0] == inner[c1]);
        assert(!crate::text::in_class(inner[c1], sp));
        if c2 == a.len() {
            assert(crate::text::in_class(a[0], sp));
        }
        if inner[0] == ' ' {
            assert(crate::text::in_class(inner[0], sp));
            assert(c1 >= 1);
            assert(tr.len() < inner.len());
        } else {
            assert(a.last() == inner.last());
            assert(crate::text::in_class(a.last(), sp));
            assert(c2 >= 1);
            assert(tr.len() < inner.len());
        }
    }
    if inner != tr && tr.len() > 0 {
        if c1 == 0 && c2 == 0 {
            assert(a =~= inner);
            assert(tr =~= inner);
        }
        assert(c1 < inner.len());
        assert(!crate::text::in_class(inner[c1], sp));
        assert(inner[c1] != ' ');
        if c1 > 0 {
            assert(crate::text::in_class(inner[0], sp));
        } else {
            assert(a =~= inner);
            assert(crate::text::in_class(a[a.len() - 1], sp));
        }
    }
}

/// Every one-line code span whose content has a space just inside its backticks (and is not
/// all spaces) is flagged, with a fix that drops the padding.
pub proof fn law_padded_code_span_is_flagged(
    doc: Document,
    source: Seq<char>,
    config: LintConfig,
    k: int,
    r: Range,
    raw: Seq<char>,
    t: int,
)
    requires
        0 <= k < doc.nodes@.len(),
        crate::rules::spans::inline_span(doc.nodes@, source, k, NodeKind::CodeInline) == Some((r, raw)),
        span_ticks(raw, t),
        r.end_column >= t,
        padded(raw.subrange(t, raw.len() - t)),
    ensures
        spec_check(RuleId::NoSpaceInCode, doc, source, config).contains(
            code_span_at(r, t, raw.subrange(t, raw.len() - t)),
        ),
{
    let nodes = doc.nodes@;
    let tick = crate::text::CharClass::Exactly('`');
    assert forall|j: int| 0 <= j < t implies crate::text::in_class(#[trigger] raw[j], tick) by {
        assert(raw[j] == '`');
    }
    crate::text::lemma_count_while_is(raw, tick, t);
    let inner = raw.subrange(t, raw.len() - t);
    lemma_padded(inner);
    let f = crate::rules::spans::code_span_each(nodes, source);
    let x = code_span_at(r, t, inner);
    assert(f(k) =~= seq![x]);
    assert(f(k)[0] == x);
    lemma_concat_upto_has(nodes.len() as int, f, k, x);
}

/// Every `no_space_in_code` finding is that of a one-line code span whose content has a
/// space just inside its backticks and is not all spaces.
pub proof fn law_code_span_findings_are_padded(doc: Document, source: Seq<char>, config: LintConfig, i: int)
    requires
        0 <= i < spec_check(RuleId::NoSpaceInCode, doc, source, config).len(),
    ensures
        exists|k: int, r: Range, raw: Seq<char>, t: int|
            #![trigger crate::rules::spans::inline_span(doc.nodes@, source, k, NodeKind::CodeInline), span_ticks(raw, t), code_span_at(r, t, raw.subrange(t, raw.len() - t))]
            0 <= k < doc.nodes@.len() && crate::rules::spans::inline_span(
                doc.nodes@,
                source,
                k,
                NodeKind::CodeInline,
            ) == Some((r, raw)) && span_ticks(raw, t) && r.end_column >= t && padded(
                raw.subrange(t, raw.len() - t),
            ) && spec_check(RuleId::NoSpaceInCode, doc, source, config)[i] == code_span_at(
                r,
                t,
                raw.subrange(t, raw.len() - t),
            ),
{
    let nodes = doc.nodes@;
    let f = crate::rules::spans::code_span_each(nodes, source);
    let res = spec_check(RuleId::NoSpaceInCode, doc, source, config);
    assert(res.contains(res[i]));
    lemma_concat_upto_from(nodes.len() as int, f, res[i]);
    let k = choose|k: int| 0 <= k < nodes.len() && (#[trigger] f(k)).contains(res[i]);
    assert(f(k).len() > 0);
    let (r, raw) = crate::rules::spans::inline_span(nodes, source, k, NodeKind::CodeInline).unwrap();
    let tick = crate::text::CharClass::Exactly('`');
    crate::text::lemma_count_while_bounds(raw, tick);
    let t = crate::text::count_while(raw, tick) as int;
    let inner = raw.subrange(t, raw.len() - t);
    lemma_padded(inner);
    assert(span_ticks(raw, t));
    assert(res[i] == code_span_at(r, t, inner));
}

// ---------------------------------------------------------------------------------------------
// ul_style

/// Whether top-level item `f` is the first one with a bullet the source shows.
pub open spec fn first_bulleted(top: Seq<DocNode>, ls: Seq<Seq<char>>, f: int) -> bool {
    &&& 0 <= f < top.len()
    &&& crate::rules::markers::item_bullet(top, ls, f) is Some
    &&& forall|j: int| 0 <= j < f ==> (#[trigger] crate::rules::markers::item_bullet(top, ls, j)) is None
}

/// The bullet every item is held to: the one the `style` option names (`dash`, `asterisk`
/// or `plus`), else that of the first bulleted item, `f`.
pub open spec fn wanted_bullet(top: Seq<DocNode>, ls: Seq<Seq<char>>, config: LintConfig, f: int) -> char {
    match crate::config::as_text(config.spec_rule_option(RuleId::UlStyle, "style"@)) {
        Some(s) => if s == "dash"@ {
            '-'
        } else if s == "asterisk"@ {
            '*'
        } else if s == "plus"@ {
            '+'
        } else {
            crate::rules::markers::item_bullet(top, ls, f).unwrap().2
        },
        None => crate::rules::markers::item_bullet(top, ls, f).unwrap().2,
    }
}

/// The finding for a bullet `found` at column `c` of line `n` when `expected` is wanted:
/// that character, replaced by the expected one.
pub open spec fn bullet_at(n: int, c: int, expected: char, found: char) -> DiagView {
    let range = line_range(n, c, c + 1);
    finding(LintMessage::UlStyle { expected, found }, Some(range), Some((range, seq![expected])))
}

proof fn lemma_first_bulleted(top: Seq<DocNode>, ls: Seq<Seq<char>>, f: int, j: int)
    requires
        first_bulleted(top, ls, f),
        0 <= j <= f,
    ensures
        crate::rules::markers::first_bullet(top, ls, j) == Some(crate::rules::markers::item_bullet(top, ls, f).unwrap().2),
    decreases f - j,
{
    if j < f {
        assert(crate::rules::markers::item_bullet(top, ls, j) is None);
        lemma_first_bulleted(top, ls, f, j + 1);
    }
}

/// Every top-level list item whose bullet is not the one items are held to (the configured
/// one, else the first item's) is flagged at the bullet, with a fix that swaps it.
pub proof fn law_off_style_bullet_is_flagged(
    doc: Document,
    source: Seq<char>,
    config: LintConfig,
    f: int,
    i: int,
    n: int,
    c: int,
    found: char,
)
    requires
        first_bulleted(doc.top@, spec_lines(source), f),
        0 <= i < doc.top@.len(),
        crate::rules::markers::item_bullet(doc.top@, spec_lines(source), i) == Some((n, c, found)),
        found != wanted_bullet(doc.top@, spec_lines(source), config, f),
    ensures
        spec_check(RuleId::UlStyle, doc, source, config).contains(
            bullet_at(n, c, wanted_bullet(doc.top@, spec_lines(source), config, f), found),
        ),
{
    let top = doc.top@;
    let ls = spec_lines(source);
    lemma_first_bulleted(top, ls, f, 0);
    let want = wanted_bullet(top, ls, config, f);
    assert(crate::rules::markers::expected_bullet(top, ls, config) == Some(want));
    let g = crate::rules::markers::bullet_each(top, ls, Some(want));
    let x = bullet_at(n, c, want, found);
    assert(g(i) =~= seq![x]);
    assert(g(i)[0] == x);
    lemma_concat_upto_has(top.len() as int, g, i, x);
}

/// Every `ul_style` finding is that of a top-level item whose bullet is not the one items are
/// held to (so with no option, the first bulleted item is never flagged).
pub proof fn law_bullet_findings_are_off_style(
    doc: Document,
    source: Seq<char>,
    config: LintConfig,
    f: int,
    q: int,
)
    requires
        first_bulleted(doc.top@, spec_lines(source), f),
        0 <= q < spec_check(RuleId::UlStyle, doc, source, config).len(),
    ensures
        exists|i: int, n: int, c: int, found: char|
            #![trigger crate::rules::markers::item_bullet(doc.top@, spec_lines(source), i), bullet_at(n, c, wanted_bullet(doc.top@, spec_lines(source), config, f), found)]
            0 <= i < doc.top@.len() && crate::rules::markers::item_bullet(doc.top@, spec_lines(source), i)
                == Some((n, c, found)) && found != wanted_bullet(doc.top@, spec_lines(source), config, f)
                && spec_check(RuleId::UlStyle, doc, source, config)[q] == bullet_at(
                n,
                c,
                wanted_bullet(doc.top@, spec_lines(source), config, f),
                found,
            ),
{
    let top = doc.top@;
    let ls = spec_lines(source);
    lemma_first_bulleted(top, ls, f, 0);
    let want = wanted_bullet(top, ls, config, f);
    assert(crate::rules::markers::expected_bullet(top, ls, config) == Some(want));
    let g = crate::rules::markers::bullet_each(top, ls, Some(want));
    let r = spec_check(RuleId::UlStyle, doc, source, config);
    assert(r.contains(r[q]));
    lemma_concat_upto_from(top.len() as int, g, r[q]);
    let i = choose|i: int| 0 <= i < top.len() && (#[trigger] g(i)).contains(r[q]);
    assert(g(i).len() > 0);
    let (n, c, found) = crate::rules::markers::item_bullet(top, ls, i).unwrap();
    assert(r[q] == bullet_at(n, c, want, found));
}

// ---------------------------------------------------------------------------------------------
// heading_style

/// Whether node `f` is the first heading whose source line is known.
pub open spec fn first_heading_line(nodes: Seq<DocNode>, ls: Seq<Seq<char>>, f: int) -> bool {
    &&& 0 <= f < nodes.len()
    &&& crate::rules::headings::heading_line(nodes, ls, f) is Some
    &&& forall|j: int| 0 <= j < f ==> (#[trigger] crate::rules::headings::heading_line(nodes, ls, j)) is None
}

/// The form every heading is held to: the one the `style` option names (`atx`,
/// `atx_closed` or `setext`), else that of the first heading, `f`.
pub open spec fn wanted_form(
    nodes: Seq<DocNode>,
    ls: Seq<Seq<char>>,
    config: LintConfig,
    f: int,
) -> crate::rules::headings::HeadingForm {
    let first = crate::rules::headings::heading_form(crate::rules::headings::heading_line(nodes, ls, f).unwrap().1);
    match crate::config::as_text(config.spec_rule_option(RuleId::HeadingStyle, "style"@)) {
        Some(s) => if s == "atx"@ {
            crate::rules::headings::HeadingForm::Atx
        } else if s == "atx_closed"@ {
            crate::rules::headings::HeadingForm::AtxClosed
        } else if s == "setext"@ {
            crate::rules::headings::HeadingForm::Setext
        } else {
            first
        },
        None => first,
    }
}

/// The finding for heading node `node` (first line `line`, line `n`) written in another form
/// than `expected`: at the heading, naming both forms, with the rewrite as its fix.
pub open spec fn form_finding(
    node: DocNode,
    n: int,
    line: Seq<char>,
    expected: crate::rules::headings::HeadingForm,
) -> DiagView {
    let found = crate::rules::headings::heading_form(line);
    DiagView {
        rule: RuleId::HeadingStyle,
        text: "heading style is "@ + found.spec_name() + ", expected "@ + expected.spec_name()
            + " (for consistency with earlier headings)"@,
        severity: spec_default_severity(RuleId::HeadingStyle),
        range: node.position,
        fix: crate::rules::headings::heading_rewrite(n, line, node.depth as nat, found, expected),
    }
}

proof fn lemma_first_heading_line(nodes: Seq<DocNode>, ls: Seq<Seq<char>>, f: int, j: int)
    requires
        first_heading_line(nodes, ls, f),
        0 <= j <= f,
    ensures
        crate::rules::headings::first_heading_form(nodes, ls, j) == Some(
            crate::rules::headings::heading_form(crate::rules::headings::heading_line(nodes, ls, f).unwrap().1),
        ),
    decreases f - j,
{
    if j < f {
        assert(crate::rules::headings::heading_line(nodes, ls, j) is None);
        lemma_first_heading_line(nodes, ls, f, j + 1);
    }
}

/// Every heading written in another form than the one headings are held to (the configured
/// one, else the first heading's) is flagged.
pub proof fn law_off_form_heading_is_flagged(
    doc: Document,
    source: Seq<char>,
    config: LintConfig,
    f: int,
    k: int,
    n: int,
    line: Seq<char>,
)
    requires
        first_heading_line(doc.nodes@, spec_lines(source), f),
        0 <= k < doc.nodes@.len(),
        crate::rules::headings::heading_line(doc.nodes@, spec_lines(source), k) == Some((n, line)),
        crate::rules::headings::heading_form(line) != wanted_form(doc.nodes@, spec_lines(source), config, f),
    ensures
        spec_check(RuleId::HeadingStyle, doc, source, config).contains(
            form_finding(doc.nodes@[k], n, line, wanted_form(doc.nodes@, spec_lines(source), config, f)),
        ),
{
    let nodes = doc.nodes@;
    let ls = spec_lines(source);
    lemma_first_heading_line(nodes, ls, f, 0);
    let want = wanted_form(nodes, ls, config, f);
    assert(crate::rules::headings::expected_heading_form(nodes, ls, config) == Some(want));
    let g = crate::rules::headings::heading_form_each(nodes, ls, Some(want));
    let x = form_finding(nodes[k], n, line, want);
    assert(g(k) =~= seq![x]);
    assert(g(k)[0] == x);
    lemma_concat_upto_has(nodes.len() as int, g, k, x);
}

/// Every `heading_style` finding is that of a heading written in another form than the one
/// headings are held to (so with no option, the first heading is never flagged).
pub proof fn law_form_findings_are_off_form(
    doc: Document,
    source: Seq<char>,
    config: LintConfig,
    f: int,
    i: int,
)
    requires
        first_heading_line(doc.nodes@, spec_lines(source), f),
        0 <= i < spec_check(RuleId::HeadingStyle, doc, source, config).len(),
    ensures
        exists|k: int, n: int, line: Seq<char>|
            #![trigger crate::rules::headings::heading_line(doc.nodes@, spec_lines(source), k), form_finding(doc.nodes@[k], n, line, wanted_form(doc.nodes@, spec_lines(source), config, f))]
            0 <= k < doc.nodes@.len() && crate::rules::headings::heading_line(doc.nodes@, spec_lines(source), k)
                == Some((n, line)) && crate::rules::headings::heading_form(line) != wanted_form(
                doc.nodes@,
                spec_lines(source),
                config,
                f,
            ) && spec_check(RuleId::HeadingStyle, doc, source, config)[i] == form_finding(
                doc.nodes@[k],
                n,
                line,
                wanted_form(doc.nodes@, spec_lines(source), config, f),
            ),
{
    let nodes = doc.nodes@;
    let ls = spec_lines(source);
    lemma_first_heading_line(nodes, ls, f, 0);
    let want = wanted_form(nodes, ls, config, f);
    assert(crate::rules::headings::expected_heading_form(nodes, ls, config) == Some(want));
    let g = crate::rules::headings::heading_form_each(nodes, ls, Some(want));
    let r = spec_check(RuleId::HeadingStyle, doc, source, config);
    assert(r.contains(r[i]));
    lemma_concat_upto_from(nodes.len() as int, g, r[i]);
    let k = choose|k: int| 0 <= k < nodes.len() && (#[trigger] g(k)).contains(r[i]);
    assert(g(k).len() > 0);
    let (n, line) = crate::rules::headings::heading_line(nodes, ls, k).unwrap();
    assert(r[i] == form_finding(nodes[k], n, line, want));
}

} // verus!
