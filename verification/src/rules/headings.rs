//! Rules about headings: level skips, duplicates, indentation, spacing inside ATX headings,
//! trailing punctuation, blank lines around headings, and the first line of the document.
use crate::config::{as_text, LintConfig};
use crate::doc::{DocNode, Document, NodeKind};
use crate::message::{LintMessage, RuleId};
use crate::rules::lines::{blank, line_range, lemma_source_lines, source_lines};
use crate::rules::{append_all, concat_upto, finding, finding_of, sorted_by_position, stable_order};
use crate::text::{
    chars_of, copy_range, count_while, count_while_rev, lines_view, run_before, run_from,
    spec_lines, str_eq, trim, trim_chars, trim_end, trim_end_chars, trim_start,
    trim_start_chars, CharClass,
};
use crate::{diag_views, fix_view, DiagView, Diagnostic, Fix, Range};
use vstd::prelude::*;

verus! {

/// Line `n` (1-based) of `ls`, if there is one.
pub open spec fn line_at(ls: Seq<Seq<char>>, n: int) -> Option<Seq<char>> {
    if 1 <= n <= ls.len() {
        Some(ls[n - 1])
    } else {
        None
    }
}

/// The indices of the heading nodes, in document order.
pub open spec fn heading_indices(nodes: Seq<DocNode>) -> Seq<usize>
    decreases nodes.len(),
{
    if nodes.len() == 0 {
        Seq::empty()
    } else {
        let r = heading_indices(nodes.drop_last());
        if nodes.last().kind == NodeKind::Heading {
            r.push((nodes.len() - 1) as usize)
        } else {
            r
        }
    }
}

/// The positions of the nodes at `idx`.
pub open spec fn positions_at(nodes: Seq<DocNode>, idx: Seq<usize>) -> Seq<Option<Range>> {
    idx.map_values(|k: usize| nodes[k as int].position)
}

/// The heading nodes' indices in source order (a stable sort on their positions).
pub open spec fn headings_in_order(nodes: Seq<DocNode>) -> Seq<usize> {
    let hi = heading_indices(nodes);
    stable_order(positions_at(nodes, hi), hi.len() as int).map_values(|k: usize| hi[k as int])
}

/// The indices of the heading nodes, in document order.
fn collect_heading_indices(nodes: &Vec<DocNode>) -> (r: Vec<usize>)
    ensures
        r@ == heading_indices(nodes@),
        forall|j: int| 0 <= j < r@.len() ==> #[trigger] r@[j] < nodes@.len(),
{
    let mut out: Vec<usize> = Vec::new();
    let mut i: usize = 0;
    while i < nodes.len()
        invariant
            i <= nodes@.len(),
            out@ == heading_indices(nodes@.take(i as int)),
            forall|j: int| 0 <= j < out@.len() ==> #[trigger] out@[j] < i,
        decreases nodes@.len() - i,
    {
        proof {
            assert(nodes@.take(i + 1).drop_last() =~= nodes@.take(i as int));
        }
        if nodes[i].kind == NodeKind::Heading {
            out.push(i);
        }
        i = i + 1;
    }
    proof {
        assert(nodes@.take(nodes@.len() as int) =~= nodes@);
    }
    out
}

/// The heading nodes' indices in source order.
fn ordered_headings(nodes: &Vec<DocNode>) -> (r: Vec<usize>)
    ensures
        r@ == headings_in_order(nodes@),
        forall|j: int| 0 <= j < r@.len() ==> #[trigger] r@[j] < nodes@.len(),
{
    let hi = collect_heading_indices(nodes);
    let mut keys: Vec<Option<Range>> = Vec::new();
    let mut i: usize = 0;
    while i < hi.len()
        invariant
            i <= hi@.len(),
            forall|j: int| 0 <= j < hi@.len() ==> #[trigger] hi@[j] < nodes@.len(),
            keys@ == positions_at(nodes@, hi@).take(i as int),
        decreases hi@.len() - i,
    {
        keys.push(nodes[hi[i]].position);
        proof {
            assert(keys@ =~= positions_at(nodes@, hi@).take(i + 1));
        }
        i = i + 1;
    }
    proof {
        assert(keys@ =~= positions_at(nodes@, hi@));
    }
    let order = sorted_by_position(&keys);
    let mut out: Vec<usize> = Vec::new();
    let mut j: usize = 0;
    while j < order.len()
        invariant
            j <= order@.len(),
            order@.len() == hi@.len(),
            forall|m: int| 0 <= m < order@.len() ==> #[trigger] order@[m] < hi@.len(),
            forall|m: int| 0 <= m < hi@.len() ==> #[trigger] hi@[m] < nodes@.len(),
            out@ == order@.take(j as int).map_values(|k: usize| hi@[k as int]),
            forall|m: int| 0 <= m < out@.len() ==> #[trigger] out@[m] < nodes@.len(),
        decreases order@.len() - j,
    {
        out.push(hi[order[j]]);
        proof {
            assert(out@ =~= order@.take(j + 1).map_values(|k: usize| hi@[k as int]));
        }
        j = j + 1;
    }
    proof {
        assert(order@.take(order@.len() as int) =~= order@);
    }
    out
}

// ---------------------------------------------------------------------------------------------
// heading_hierarchy_skip

/// The finding for the `k`-th heading in source order: its level is more than one deeper than
/// the previous heading's.
pub open spec fn level_skip_finding(nodes: Seq<DocNode>, order: Seq<usize>, k: int) -> Seq<
    DiagView,
> {
    if k > 0 {
        let prev = nodes[order[k - 1] as int].depth;
        let cur = nodes[order[k] as int];
        if cur.depth > prev + 1 {
            seq![
                finding(
                    LintMessage::HeadingHierarchySkip { from: prev as u8, to: cur.depth as u8 },
                    cur.position,
                    None,
                ),
            ]
        } else {
            Seq::empty()
        }
    } else {
        Seq::empty()
    }
}

pub open spec fn level_skip_each(nodes: Seq<DocNode>, order: Seq<usize>) -> spec_fn(int) -> Seq<
    DiagView,
> {
    |k: int| level_skip_finding(nodes, order, k)
}

/// One finding per heading that goes more than one level deeper than the heading before it.
pub open spec fn spec_heading_hierarchy_skip(nodes: Seq<DocNode>) -> Seq<DiagView> {
    let order = headings_in_order(nodes);
    concat_upto(order.len() as int, level_skip_each(nodes, order))
}

/// Flags a heading whose level is more than one deeper than the previous heading's.
pub fn heading_hierarchy_skip(doc: &Document) -> (r: Vec<Diagnostic>)
    ensures
        diag_views(r@) == spec_heading_hierarchy_skip(doc.nodes@),
{
    let nodes = &doc.nodes;
    let order = ordered_headings(nodes);
    let mut out: Vec<Diagnostic> = Vec::new();
    let mut k: usize = 0;
    proof {
        assert(diag_views(out@) =~= Seq::<DiagView>::empty());
    }
    while k < order.len()
        invariant
            k <= order@.len(),
            order@ == headings_in_order(nodes@),
            forall|m: int| 0 <= m < order@.len() ==> #[trigger] order@[m] < nodes@.len(),
            diag_views(out@) == concat_upto(k as int, level_skip_each(nodes@, order@)),
        decreases order@.len() - k,
    {
        let ghost before = diag_views(out@);
        if k > 0 {
            let prev = nodes[order[k - 1]].depth;
            let cur = &nodes[order[k]];
            if cur.depth > prev && cur.depth - prev > 1 {
                out.push(
                    finding_of(
                        LintMessage::HeadingHierarchySkip { from: prev as u8, to: cur.depth as u8 },
                        cur.position,
                        None,
                    ),
                );
            }
        }
        proof {
            assert(diag_views(out@) =~= before + level_skip_finding(nodes@, order@, k as int));
        }
        k = k + 1;
    }
    out
}

// ---------------------------------------------------------------------------------------------
// no_duplicate_heading

/// Whether one of the first `k` headings in `order` has the same text as the `k`-th.
pub open spec fn seen_before(nodes: Seq<DocNode>, order: Seq<usize>, k: int) -> bool {
    exists|m: int| 0 <= m < k && (#[trigger] nodes[order[m] as int]).value@ == nodes[order[k] as int].value@
}

/// The text of a `no_duplicate_heading` finding.
pub open spec fn duplicate_heading_text(text: Seq<char>) -> Seq<char> {
    "heading `"@ + text + "` duplicates an earlier heading"@
}

pub open spec fn duplicate_finding(nodes: Seq<DocNode>, order: Seq<usize>, k: int) -> Seq<DiagView> {
    if seen_before(nodes, order, k) {
        let h = nodes[order[k] as int];
        seq![
            DiagView {
                rule: RuleId::NoDuplicateHeading,
                text: duplicate_heading_text(h.value@),
                severity: crate::rules::spec_default_severity(RuleId::NoDuplicateHeading),
                range: h.position,
                fix: None,
            },
        ]
    } else {
        Seq::empty()
    }
}

pub open spec fn duplicate_each(nodes: Seq<DocNode>, order: Seq<usize>) -> spec_fn(int) -> Seq<
    DiagView,
> {
    |k: int| duplicate_finding(nodes, order, k)
}

/// One finding per heading (in source order) whose text an earlier heading already has.
pub open spec fn spec_no_duplicate_heading(nodes: Seq<DocNode>) -> Seq<DiagView> {
    let order = headings_in_order(nodes);
    concat_upto(order.len() as int, duplicate_each(nodes, order))
}

/// Flags a heading whose text repeats an earlier heading's.
pub fn no_duplicate_heading(doc: &Document) -> (r: Vec<Diagnostic>)
    ensures
        diag_views(r@) == spec_no_duplicate_heading(doc.nodes@),
{
    let nodes = &doc.nodes;
    let order = ordered_headings(nodes);
    let mut out: Vec<Diagnostic> = Vec::new();
    let mut k: usize = 0;
    proof {
        assert(diag_views(out@) =~= Seq::<DiagView>::empty());
    }
    while k < order.len()
        invariant
            k <= order@.len(),
            order@ == headings_in_order(nodes@),
            forall|m: int| 0 <= m < order@.len() ==> #[trigger] order@[m] < nodes@.len(),
            diag_views(out@) == concat_upto(k as int, duplicate_each(nodes@, order@)),
        decreases order@.len() - k,
    {
        let ghost before = diag_views(out@);
        let h = &nodes[order[k]];
        let mut m: usize = 0;
        let mut seen = false;
        while m < k
            invariant
                k < order@.len(),
                m <= k,
                forall|q: int| 0 <= q < order@.len() ==> #[trigger] order@[q] < nodes@.len(),
                *h == nodes@[order@[k as int] as int],
                seen == exists|q: int|
                    0 <= q < m && (#[trigger] nodes@[order@[q] as int]).value@ == h.value@,
            decreases k - m,
        {
            let same = crate::text::str_eq(nodes[order[m]].value.as_str(), h.value.as_str());
            proof {
                if same {
                    assert(nodes@[order@[m as int] as int].value@ == h.value@);
                }
            }
            seen = seen || same;
            m = m + 1;
        }
        if seen {
            let text = h.value.clone();
            out.push(finding_of(LintMessage::NoDuplicateHeading { text }, h.position, None));
        }
        proof {
            assert(diag_views(out@) =~= before + duplicate_finding(nodes@, order@, k as int));
        }
        k = k + 1;
    }
    out
}

// ---------------------------------------------------------------------------------------------
// Rules that read each heading's first source line.

/// The first source line of node `k`, if it is a heading with a known position.
pub open spec fn heading_line(nodes: Seq<DocNode>, ls: Seq<Seq<char>>, k: int) -> Option<
    (int, Seq<char>),
> {
    let node = nodes[k];
    if node.kind == NodeKind::Heading {
        match node.position {
            Some(p) => match line_at(ls, p.start_line as int) {
                Some(line) => Some((p.start_line as int, line)),
                None => None,
            },
            None => None,
        }
    } else {
        None
    }
}

/// The first source line of node `k`, if it is a heading with a known position.
fn heading_line_exec<'a>(nodes: &Vec<DocNode>, lines: &'a Vec<Vec<char>>, k: usize) -> (r: Option<
    (usize, &'a Vec<char>),
>)
    requires
        k < nodes@.len(),
    ensures
        match r {
            Some((n, line)) => heading_line(nodes@, lines_view(lines@), k as int) == Some(
                (n as int, line@),
            ),
            None => heading_line(nodes@, lines_view(lines@), k as int) is None,
        },
{
    let node = &nodes[k];
    if node.kind != NodeKind::Heading {
        return None;
    }
    match node.position {
        Some(p) => {
            let n = p.start_line;
            if 1 <= n && n <= lines.len() {
                proof {
                    assert(lines_view(lines@)[n - 1] == lines@[n - 1]@);
                }
                Some((n, &lines[n - 1]))
            } else {
                None
            }
        },
        None => None,
    }
}

/// The finding of `heading_start_left` for an indented heading line `line`, line `n`.
pub open spec fn indented_heading_finding(n: int, line: Seq<char>) -> Seq<DiagView> {
    let indent = count_while(line, CharClass::Whitespace) as int;
    if indent > 0 {
        let range = line_range(n, 1, indent + 1);
        seq![finding(LintMessage::HeadingStartLeft, Some(range), Some((range, Seq::empty())))]
    } else {
        Seq::empty()
    }
}

pub open spec fn heading_start_left_each(nodes: Seq<DocNode>, ls: Seq<Seq<char>>) -> spec_fn(
    int,
) -> Seq<DiagView> {
    |k: int|
        match heading_line(nodes, ls, k) {
            Some((n, line)) => indented_heading_finding(n, line),
            None => Seq::empty(),
        }
}

/// One finding per heading whose first line is indented, in document order.
pub open spec fn spec_heading_start_left(nodes: Seq<DocNode>, source: Seq<char>) -> Seq<DiagView> {
    concat_upto(nodes.len() as int, heading_start_left_each(nodes, spec_lines(source)))
}

/// Flags a heading that does not start at the beginning of its line; the fix removes the
/// indentation.
pub fn heading_start_left(doc: &Document, source: &str) -> (r: Vec<Diagnostic>)
    requires
        source@.len() < usize::MAX,
    ensures
        diag_views(r@) == spec_heading_start_left(doc.nodes@, source@),
{
    let nodes = &doc.nodes;
    let lines = source_lines(source);
    let ghost ls = spec_lines(source@);
    proof {
        lemma_source_lines(source@);
    }
    let mut out: Vec<Diagnostic> = Vec::new();
    let mut k: usize = 0;
    proof {
        assert(diag_views(out@) =~= Seq::<DiagView>::empty());
    }
    while k < nodes.len()
        invariant
            k <= nodes@.len(),
            lines_view(lines@) == ls,
            ls == spec_lines(source@),
            source@.len() < usize::MAX,
            forall|j: int| 0 <= j < ls.len() ==> (#[trigger] ls[j]).len() <= source@.len(),
            diag_views(out@) == concat_upto(k as int, heading_start_left_each(nodes@, ls)),
        decreases nodes@.len() - k,
    {
        let ghost before = diag_views(out@);
        match heading_line_exec(nodes, &lines, k) {
            Some((n, line)) => {
                let indent = run_from(line, 0, CharClass::Whitespace);
                proof {
                    assert(line@.skip(0) =~= line@);
                }
                if indent > 0 {
                    let range = Range::single_line(n, 1, indent + 1);
                    let fix = Fix::new(range, "");
                    out.push(finding_of(LintMessage::HeadingStartLeft, Some(range), Some(fix)));
                    proof {
                        reveal_strlit("");
                        assert(fix.replacement@ =~= Seq::<char>::empty());
                    }
                }
                proof {
                    assert(diag_views(out@) =~= before + indented_heading_finding(n as int, line@));
                }
            },
            None => {
                proof {
                    assert(diag_views(out@) =~= before + Seq::<DiagView>::empty());
                }
            },
        }
        k = k + 1;
    }
    out
}

/// The finding of `no_multiple_space_atx` for heading line `line`, line `n`: more than one
/// space after the opening `#`s, replaced by one.
pub open spec fn atx_spaces_finding(n: int, line: Seq<char>) -> Seq<DiagView> {
    let indent = count_while(line, CharClass::Whitespace) as int;
    let trimmed = line.skip(indent);
    let hashes = count_while(trimmed, CharClass::Exactly('#')) as int;
    let gap = count_while(trimmed.skip(hashes), CharClass::Exactly(' ')) as int;
    if hashes > 0 && gap > 1 {
        let start = indent + hashes + 1;
        let range = line_range(n, start, start + gap);
        seq![finding(LintMessage::NoMultipleSpaceAtx, Some(range), Some((range, seq![' '])))]
    } else {
        Seq::empty()
    }
}

pub open spec fn atx_spaces_each(nodes: Seq<DocNode>, ls: Seq<Seq<char>>) -> spec_fn(int) -> Seq<
    DiagView,
> {
    |k: int|
        match heading_line(nodes, ls, k) {
            Some((n, line)) => atx_spaces_finding(n, line),
            None => Seq::empty(),
        }
}

/// One finding per ATX heading with several spaces after its `#`s, in document order.
pub open spec fn spec_no_multiple_space_atx(nodes: Seq<DocNode>, source: Seq<char>) -> Seq<
    DiagView,
> {
    concat_upto(nodes.len() as int, atx_spaces_each(nodes, spec_lines(source)))
}

fn atx_spaces_line(n: usize, line: &Vec<char>) -> (r: Vec<Diagnostic>)
    requires
        line@.len() < usize::MAX,
    ensures
        diag_views(r@) == atx_spaces_finding(n as int, line@),
{
    let mut out: Vec<Diagnostic> = Vec::new();
    let indent = run_from(line, 0, CharClass::Whitespace);
    proof {
        assert(line@.skip(0) =~= line@);
    }
    let hashes = run_from(line, indent, CharClass::Exactly('#'));
    let gap = run_from(line, indent + hashes, CharClass::Exactly(' '));
    proof {
        assert(line@.skip(indent as int).skip(hashes as int) =~= line@.skip(indent + hashes));
    }
    if hashes > 0 && gap > 1 {
        let start = indent + hashes + 1;
        let range = Range::single_line(n, start, start + gap);
        let fix = Fix::new(range, " ");
        out.push(finding_of(LintMessage::NoMultipleSpaceAtx, Some(range), Some(fix)));
        proof {
            reveal_strlit(" ");
            assert(fix.replacement@ =~= seq![' ']);
        }
    }
    proof {
        assert(diag_views(out@) =~= atx_spaces_finding(n as int, line@));
    }
    out
}

/// Flags more than one space after an ATX heading's `#`s; the fix leaves one.
pub fn no_multiple_space_atx(doc: &Document, source: &str) -> (r: Vec<Diagnostic>)
    requires
        source@.len() < usize::MAX,
    ensures
        diag_views(r@) == spec_no_multiple_space_atx(doc.nodes@, source@),
{
    let nodes = &doc.nodes;
    let lines = source_lines(source);
    let ghost ls = spec_lines(source@);
    proof {
        lemma_source_lines(source@);
    }
    let mut out: Vec<Diagnostic> = Vec::new();
    let mut k: usize = 0;
    proof {
        assert(diag_views(out@) =~= Seq::<DiagView>::empty());
    }
    while k < nodes.len()
        invariant
            k <= nodes@.len(),
            lines_view(lines@) == ls,
            ls == spec_lines(source@),
            source@.len() < usize::MAX,
            forall|j: int| 0 <= j < ls.len() ==> (#[trigger] ls[j]).len() <= source@.len(),
            diag_views(out@) == concat_upto(k as int, atx_spaces_each(nodes@, ls)),
        decreases nodes@.len() - k,
    {
        let ghost before = diag_views(out@);
        match heading_line_exec(nodes, &lines, k) {
            Some((n, line)) => {
                let more = atx_spaces_line(n, line);
                append_all(&mut out, more);
            },
            None => {
                proof {
                    assert(diag_views(out@) =~= before + Seq::<DiagView>::empty());
                }
            },
        }
        k = k + 1;
    }
    out
}

/// The findings of the closed-ATX rules for heading line `line`, line `n`: with closing `#`s
/// after text, `missing` reports no space before them; otherwise more than one space.
pub open spec fn closed_atx_finding(n: int, line: Seq<char>, missing: bool) -> Seq<DiagView> {
    let t = trim_end(line);
    let closing = count_while_rev(t, CharClass::Exactly('#')) as int;
    let core = t.take(t.len() - closing);
    if closing == 0 {
        Seq::empty()
    } else if missing {
        if core.len() == 0 || core.last() == ' ' || core.last() == '\t' {
            Seq::empty()
        } else {
            let range = line_range(n, core.len() + 1int, core.len() + 1int);
            seq![
                finding(LintMessage::NoMissingSpaceClosedAtx, Some(range), Some((range, seq![' ']))),
            ]
        }
    } else {
        let gap = count_while_rev(core, CharClass::Exactly(' ')) as int;
        if gap > 1 {
            let start = core.len() - gap + 1;
            let range = line_range(n, start, start + gap);
            seq![
                finding(
                    LintMessage::NoMultipleSpaceClosedAtx,
                    Some(range),
                    Some((range, seq![' '])),
                ),
            ]
        } else {
            Seq::empty()
        }
    }
}

pub open spec fn closed_atx_each(nodes: Seq<DocNode>, ls: Seq<Seq<char>>, missing: bool) -> spec_fn(
    int,
) -> Seq<DiagView> {
    |k: int|
        match heading_line(nodes, ls, k) {
            Some((n, line)) => closed_atx_finding(n, line, missing),
            None => Seq::empty(),
        }
}

/// `no_missing_space_closed_atx` (when `missing`) or `no_multiple_space_closed_atx`: one
/// finding per heading, in document order.
pub open spec fn spec_closed_atx(nodes: Seq<DocNode>, source: Seq<char>, missing: bool) -> Seq<
    DiagView,
> {
    concat_upto(nodes.len() as int, closed_atx_each(nodes, spec_lines(source), missing))
}

fn closed_atx_line(n: usize, line: &Vec<char>, missing: bool) -> (r: Vec<Diagnostic>)
    requires
        line@.len() < usize::MAX,
    ensures
        diag_views(r@) == closed_atx_finding(n as int, line@, missing),
{
    let mut out: Vec<Diagnostic> = Vec::new();
    let ws = run_before(line, line.len(), CharClass::Whitespace);
    proof {
        assert(line@.take(line@.len() as int) =~= line@);
    }
    let end = line.len() - ws;
    let closing = run_before(line, end, CharClass::Exactly('#'));
    let core_len = end - closing;
    let ghost t = trim_end(line@);
    proof {
        assert(t =~= line@.take(end as int));
    }
    if closing == 0 {
        proof {
            assert(diag_views(out@) =~= closed_atx_finding(n as int, line@, missing));
        }
        return out;
    }
    if missing {
        if core_len == 0 || line[core_len - 1] == ' ' || line[core_len - 1] == '\t' {
            proof {
                assert(diag_views(out@) =~= closed_atx_finding(n as int, line@, missing));
            }
            return out;
        }
        let range = Range::at(n, core_len + 1);
        let fix = Fix::new(range, " ");
        out.push(finding_of(LintMessage::NoMissingSpaceClosedAtx, Some(range), Some(fix)));
        proof {
            reveal_strlit(" ");
            assert(fix.replacement@ =~= seq![' ']);
            assert(diag_views(out@) =~= closed_atx_finding(n as int, line@, missing));
        }
        out
    } else {
        let gap = run_before(line, core_len, CharClass::Exactly(' '));
        proof {
            assert(t.take(t.len() - closing) =~= line@.take(core_len as int));
        }
        if gap > 1 {
            let start = core_len - gap + 1;
            let range = Range::single_line(n, start, start + gap);
            let fix = Fix::new(range, " ");
            out.push(finding_of(LintMessage::NoMultipleSpaceClosedAtx, Some(range), Some(fix)));
            proof {
                reveal_strlit(" ");
                assert(fix.replacement@ =~= seq![' ']);
            }
        }
        proof {
            assert(diag_views(out@) =~= closed_atx_finding(n as int, line@, missing));
        }
        out
    }
}

/// `no_missing_space_closed_atx` (when `missing`): flags closing `#`s with no space before
/// them, fixed by inserting one; otherwise `no_multiple_space_closed_atx`: flags several
/// spaces before them, fixed by leaving one.
pub fn closed_atx(doc: &Document, source: &str, missing: bool) -> (r: Vec<Diagnostic>)
    requires
        source@.len() < usize::MAX,
    ensures
        diag_views(r@) == spec_closed_atx(doc.nodes@, source@, missing),
{
    let nodes = &doc.nodes;
    let lines = source_lines(source);
    let ghost ls = spec_lines(source@);
    proof {
        lemma_source_lines(source@);
    }
    let mut out: Vec<Diagnostic> = Vec::new();
    let mut k: usize = 0;
    proof {
        assert(diag_views(out@) =~= Seq::<DiagView>::empty());
    }
    while k < nodes.len()
        invariant
            k <= nodes@.len(),
            lines_view(lines@) == ls,
            ls == spec_lines(source@),
            source@.len() < usize::MAX,
            forall|j: int| 0 <= j < ls.len() ==> (#[trigger] ls[j]).len() <= source@.len(),
            diag_views(out@) == concat_upto(k as int, closed_atx_each(nodes@, ls, missing)),
        decreases nodes@.len() - k,
    {
        let ghost before = diag_views(out@);
        match heading_line_exec(nodes, &lines, k) {
            Some((n, line)) => {
                let more = closed_atx_line(n, line, missing);
                append_all(&mut out, more);
            },
            None => {
                proof {
                    assert(diag_views(out@) =~= before + Seq::<DiagView>::empty());
                }
            },
        }
        k = k + 1;
    }
    out
}

/// The finding of `no_trailing_punctuation_heading` for heading line `line`, line `n`: its
/// last non-whitespace character is one of `punctuation`; the fix deletes it.
pub open spec fn punctuation_finding(n: int, line: Seq<char>, punctuation: Seq<char>) -> Seq<
    DiagView,
> {
    let t = trim_end(line);
    if t.len() > 0 && punctuation.contains(t.last()) {
        let range = line_range(n, t.len() as int, t.len() + 1int);
        seq![
            finding(
                LintMessage::NoTrailingPunctuationHeading { punctuation: t.last() },
                Some(range),
                Some((range, Seq::empty())),
            ),
        ]
    } else {
        Seq::empty()
    }
}

pub open spec fn punctuation_each(
    nodes: Seq<DocNode>,
    ls: Seq<Seq<char>>,
    punctuation: Seq<char>,
) -> spec_fn(int) -> Seq<DiagView> {
    |k: int|
        match heading_line(nodes, ls, k) {
            Some((n, line)) => punctuation_finding(n, line, punctuation),
            None => Seq::empty(),
        }
}

/// One finding per heading ending in one of `punctuation`, in document order.
pub open spec fn spec_no_trailing_punctuation_heading(
    nodes: Seq<DocNode>,
    source: Seq<char>,
    punctuation: Seq<char>,
) -> Seq<DiagView> {
    concat_upto(nodes.len() as int, punctuation_each(nodes, spec_lines(source), punctuation))
}

/// The `punctuation` option of `no_trailing_punctuation_heading` (default `.,;:!`).
pub open spec fn punctuation_option(config: LintConfig) -> Seq<char> {
    match as_text(config.spec_rule_option(RuleId::NoTrailingPunctuationHeading, "punctuation"@)) {
        Some(s) => s,
        None => ".,;:!"@,
    }
}

fn contains_char(v: &Vec<char>, c: char) -> (r: bool)
    ensures
        r == v@.contains(c),
{
    let mut i: usize = 0;
    while i < v.len()
        invariant
            i <= v@.len(),
            forall|j: int| 0 <= j < i ==> v@[j] != c,
        decreases v@.len() - i,
    {
        if v[i] == c {
            proof {
                assert(v@[i as int] == c);
            }
            return true;
        }
        i = i + 1;
    }
    false
}

/// Flags a heading whose text ends in one of the `punctuation` option's characters.
pub fn no_trailing_punctuation_heading(doc: &Document, source: &str, config: &LintConfig) -> (r:
    Vec<Diagnostic>)
    requires
        source@.len() < usize::MAX,
    ensures
        diag_views(r@) == spec_no_trailing_punctuation_heading(
            doc.nodes@,
            source@,
            punctuation_option(*config),
        ),
{
    let punctuation = match config.get_str(RuleId::NoTrailingPunctuationHeading, "punctuation") {
        Some(s) => chars_of(s.as_str()),
        None => chars_of(".,;:!"),
    };
    let nodes = &doc.nodes;
    let lines = source_lines(source);
    let ghost ls = spec_lines(source@);
    proof {
        lemma_source_lines(source@);
    }
    let mut out: Vec<Diagnostic> = Vec::new();
    let mut k: usize = 0;
    proof {
        assert(diag_views(out@) =~= Seq::<DiagView>::empty());
    }
    while k < nodes.len()
        invariant
            k <= nodes@.len(),
            lines_view(lines@) == ls,
            ls == spec_lines(source@),
            source@.len() < usize::MAX,
            forall|j: int| 0 <= j < ls.len() ==> (#[trigger] ls[j]).len() <= source@.len(),
            punctuation@ == punctuation_option(*config),
            diag_views(out@) == concat_upto(
                k as int,
                punctuation_each(nodes@, ls, punctuation@),
            ),
        decreases nodes@.len() - k,
    {
        let ghost before = diag_views(out@);
        match heading_line_exec(nodes, &lines, k) {
            Some((n, line)) => {
                let ws = run_before(line, line.len(), CharClass::Whitespace);
                proof {
                    assert(line@.take(line@.len() as int) =~= line@);
                    assert(trim_end(line@) =~= line@.take(line@.len() - ws));
                }
                let end = line.len() - ws;
                if end > 0 && contains_char(&punctuation, line[end - 1]) {
                    let last = line[end - 1];
                    let range = Range::single_line(n, end, end + 1);
                    let fix = Fix::new(range, "");
                    out.push(
                        finding_of(
                            LintMessage::NoTrailingPunctuationHeading { punctuation: last },
                            Some(range),
                            Some(fix),
                        ),
                    );
                    proof {
                        reveal_strlit("");
                        assert(fix.replacement@ =~= Seq::<char>::empty());
                    }
                }
                proof {
                    assert(diag_views(out@) =~= before + punctuation_finding(
                        n as int,
                        line@,
                        punctuation@,
                    ));
                }
            },
            None => {
                proof {
                    assert(diag_views(out@) =~= before + Seq::<DiagView>::empty());
                }
            },
        }
        k = k + 1;
    }
    out
}

// ---------------------------------------------------------------------------------------------
// heading_style

/// How a heading is written: ATX (`# Title`), closed ATX (`# Title #`) or setext (underlined).
#[derive(Debug, Clone, Copy, PartialEq, Eq, Structural)]
pub enum HeadingForm {
    Atx,
    AtxClosed,
    Setext,
}

impl HeadingForm {
    pub open spec fn spec_name(self) -> Seq<char> {
        match self {
            HeadingForm::Atx => "atx"@,
            HeadingForm::AtxClosed => "atx_closed"@,
            HeadingForm::Setext => "setext"@,
        }
    }

    /// The form's name in configuration and messages.
    pub fn name(&self) -> (r: &'static str)
        ensures
            r@ == self.spec_name(),
    {
        match self {
            HeadingForm::Atx => "atx",
            HeadingForm::AtxClosed => "atx_closed",
            HeadingForm::Setext => "setext",
        }
    }
}

/// The form a `style` option names, if it names one.
pub open spec fn parse_heading_form(s: Seq<char>) -> Option<HeadingForm> {
    if s == "atx"@ {
        Some(HeadingForm::Atx)
    } else if s == "atx_closed"@ {
        Some(HeadingForm::AtxClosed)
    } else if s == "setext"@ {
        Some(HeadingForm::Setext)
    } else {
        None
    }
}

fn parse_heading_form_exec(s: &str) -> (r: Option<HeadingForm>)
    ensures
        r == parse_heading_form(s@),
{
    if str_eq(s, "atx") {
        Some(HeadingForm::Atx)
    } else if str_eq(s, "atx_closed") {
        Some(HeadingForm::AtxClosed)
    } else if str_eq(s, "setext") {
        Some(HeadingForm::Setext)
    } else {
        None
    }
}

/// What follows the opening `#`s of a heading's first line (indentation dropped).
pub open spec fn after_hashes(line: Seq<char>) -> Seq<char> {
    let t = trim_start(line);
    t.skip(count_while(t, CharClass::Exactly('#')) as int)
}

/// The form of a heading whose first source line is `line`: setext unless the line starts
/// with `#`; closed ATX where what follows the opening `#`s ends with `#`.
pub open spec fn heading_form(line: Seq<char>) -> HeadingForm {
    let t = trim_start(line);
    if t.len() == 0 || t[0] != '#' {
        HeadingForm::Setext
    } else {
        let e = trim_end(after_hashes(line));
        if e.len() > 0 && e.last() == '#' {
            HeadingForm::AtxClosed
        } else {
            HeadingForm::Atx
        }
    }
}

/// The text of an ATX heading line written in form `form`, without its `#`s.
pub open spec fn atx_text(line: Seq<char>, form: HeadingForm) -> Seq<char> {
    let a = trim(after_hashes(line));
    if form == HeadingForm::AtxClosed {
        trim(a.take(a.len() - count_while_rev(a, CharClass::Exactly('#'))))
    } else {
        a
    }
}

/// `n` copies of `#`.
pub open spec fn hashes(n: nat) -> Seq<char> {
    Seq::new(n, |_i: int| '#')
}

/// The rewrite of heading line `line` (line `n`, level `depth`) from form `found` to form
/// `expected`: only between ATX and closed ATX, which touch one line.
pub open spec fn heading_rewrite(n: int, line: Seq<char>, depth: nat, found: HeadingForm, expected: HeadingForm) -> Option<
    (Range, Seq<char>),
> {
    if found == HeadingForm::Setext || expected == HeadingForm::Setext {
        None
    } else {
        let text = atx_text(line, found);
        let rep = if expected == HeadingForm::Atx {
            hashes(depth) + seq![' '] + text
        } else {
            hashes(depth) + seq![' '] + text + seq![' '] + hashes(depth)
        };
        Some((line_range(n, 1, line.len() + 1int), rep))
    }
}

/// The form of the first heading of `nodes[k..]` whose line is known.
pub open spec fn first_heading_form(nodes: Seq<DocNode>, ls: Seq<Seq<char>>, k: int) -> Option<HeadingForm>
    decreases nodes.len() - k,
{
    if k < 0 || k >= nodes.len() {
        None
    } else {
        match heading_line(nodes, ls, k) {
            Some((n, line)) => Some(heading_form(line)),
            None => first_heading_form(nodes, ls, k + 1),
        }
    }
}

/// The expected form: the `style` option's, else the first heading's.
pub open spec fn expected_heading_form(nodes: Seq<DocNode>, ls: Seq<Seq<char>>, config: LintConfig) -> Option<
    HeadingForm,
> {
    match as_text(config.spec_rule_option(RuleId::HeadingStyle, "style"@)) {
        Some(s) => match parse_heading_form(s) {
            Some(f) => Some(f),
            None => first_heading_form(nodes, ls, 0),
        },
        None => first_heading_form(nodes, ls, 0),
    }
}

/// The finding for heading `k` (first line `line`, line `n`) written in another form than
/// `expected`.
pub open spec fn heading_form_finding(node: DocNode, n: int, line: Seq<char>, expected: HeadingForm) -> Seq<
    DiagView,
> {
    let found = heading_form(line);
    if found != expected {
        seq![
            DiagView {
                rule: RuleId::HeadingStyle,
                text: "heading style is "@ + found.spec_name() + ", expected "@ + expected.spec_name()
                    + " (for consistency with earlier headings)"@,
                severity: crate::rules::spec_default_severity(RuleId::HeadingStyle),
                range: node.position,
                fix: heading_rewrite(n, line, node.depth as nat, found, expected),
            },
        ]
    } else {
        Seq::empty()
    }
}

pub open spec fn heading_form_each(nodes: Seq<DocNode>, ls: Seq<Seq<char>>, expected: Option<HeadingForm>) -> spec_fn(
    int,
) -> Seq<DiagView> {
    |k: int|
        match (heading_line(nodes, ls, k), expected) {
            (Some((n, line)), Some(e)) => heading_form_finding(nodes[k], n, line, e),
            _ => Seq::empty(),
        }
}

/// One finding per heading written in another form than the expected one.
pub open spec fn spec_heading_style(nodes: Seq<DocNode>, source: Seq<char>, config: LintConfig) -> Seq<
    DiagView,
> {
    let ls = spec_lines(source);
    concat_upto(nodes.len() as int, heading_form_each(nodes, ls, expected_heading_form(nodes, ls, config)))
}

fn heading_form_exec(line: &Vec<char>) -> (r: HeadingForm)
    ensures
        r == heading_form(line@),
{
    let t = trim_start_chars(line);
    if t.len() == 0 || t[0] != '#' {
        return HeadingForm::Setext;
    }
    let h = run_from(&t, 0, CharClass::Exactly('#'));
    proof {
        assert(t@.skip(0) =~= t@);
    }
    let after = copy_range(&t, h, t.len());
    proof {
        assert(after@ =~= after_hashes(line@));
    }
    let e = trim_end_chars(&after);
    if e.len() > 0 && e[e.len() - 1] == '#' {
        HeadingForm::AtxClosed
    } else {
        HeadingForm::Atx
    }
}

fn hashes_string(n: usize) -> (r: String)
    ensures
        r@ == hashes(n as nat),
{
    let mut r = String::new();
    let mut i: usize = 0;
    while i < n
        invariant
            i <= n,
            r@ == hashes(i as nat),
        decreases n - i,
    {
        crate::text::push_char(&mut r, '#');
        i = i + 1;
        proof {
            assert(r@ =~= hashes(i as nat));
        }
    }
    r
}

fn heading_rewrite_exec(n: usize, line: &Vec<char>, depth: usize, found: HeadingForm, expected: HeadingForm) -> (r: Option<Fix>)
    requires
        line@.len() < usize::MAX,
    ensures
        fix_view(r) == heading_rewrite(n as int, line@, depth as nat, found, expected),
{
    if found == HeadingForm::Setext || expected == HeadingForm::Setext {
        return None;
    }
    let t = trim_start_chars(line);
    let h = run_from(&t, 0, CharClass::Exactly('#'));
    proof {
        assert(t@.skip(0) =~= t@);
    }
    let after = copy_range(&t, h, t.len());
    proof {
        assert(after@ =~= after_hashes(line@));
    }
    let a = trim_chars(&after);
    let text = if found == HeadingForm::AtxClosed {
        let c = run_before(&a, a.len(), CharClass::Exactly('#'));
        proof {
            assert(a@.take(a@.len() as int) =~= a@);
        }
        let core = copy_range(&a, 0, a.len() - c);
        trim_chars(&core)
    } else {
        a
    };
    proof {
        assert(text@ =~= atx_text(line@, found));
    }
    let marks = hashes_string(depth);
    let mut rep = String::new();
    rep.append(marks.as_str());
    crate::text::push_char(&mut rep, ' ');
    crate::text::push_chars(&mut rep, &text);
    if expected == HeadingForm::AtxClosed {
        crate::text::push_char(&mut rep, ' ');
        rep.append(marks.as_str());
    }
    let range = Range::single_line(n, 1, line.len() + 1);
    proof {
        assert(rep@ =~= heading_rewrite(n as int, line@, depth as nat, found, expected).unwrap().1);
    }
    Some(Fix { range, replacement: rep })
}

/// Flags a heading written in another form (ATX, closed ATX, setext) than the `style` option
/// names, or than the first heading; between ATX and closed ATX the fix rewrites the line.
pub fn heading_style(doc: &Document, source: &str, config: &LintConfig) -> (r: Vec<Diagnostic>)
    requires
        source@.len() < usize::MAX,
    ensures
        diag_views(r@) == spec_heading_style(doc.nodes@, source@, *config),
{
    let nodes = &doc.nodes;
    let lines = source_lines(source);
    let ghost ls = spec_lines(source@);
    proof {
        lemma_source_lines(source@);
    }
    let configured = match config.get_str(RuleId::HeadingStyle, "style") {
        Some(s) => parse_heading_form_exec(s.as_str()),
        None => None,
    };
    let expected: Option<HeadingForm> = match configured {
        Some(f) => Some(f),
        None => {
            let mut k: usize = 0;
            let mut found: Option<HeadingForm> = None;
            while k < nodes.len()
                invariant_except_break
                    found is None,
                invariant
                    k <= nodes@.len(),
                    lines_view(lines@) == ls,
                    first_heading_form(nodes@, ls, 0) == first_heading_form(nodes@, ls, k as int),
                ensures
                    found == first_heading_form(nodes@, ls, 0),
                decreases nodes@.len() - k,
            {
                match heading_line_exec(nodes, &lines, k) {
                    Some((_, line)) => {
                        found = Some(heading_form_exec(line));
                        break;
                    },
                    None => {},
                }
                k = k + 1;
            }
            found
        },
    };
    proof {
        assert(expected == expected_heading_form(nodes@, ls, *config));
    }
    let mut out: Vec<Diagnostic> = Vec::new();
    let mut k: usize = 0;
    proof {
        assert(diag_views(out@) =~= Seq::<DiagView>::empty());
    }
    while k < nodes.len()
        invariant
            k <= nodes@.len(),
            lines_view(lines@) == ls,
            ls == spec_lines(source@),
            source@.len() < usize::MAX,
            forall|j: int| 0 <= j < ls.len() ==> (#[trigger] ls[j]).len() <= source@.len(),
            expected == expected_heading_form(nodes@, ls, *config),
            diag_views(out@) == concat_upto(k as int, heading_form_each(nodes@, ls, expected)),
        decreases nodes@.len() - k,
    {
        let ghost before = diag_views(out@);
        match (heading_line_exec(nodes, &lines, k), expected) {
            (Some((n, line)), Some(e)) => {
                let found = heading_form_exec(line);
                if found != e {
                    let fix = heading_rewrite_exec(n, line, nodes[k].depth, found, e);
                    let message = LintMessage::HeadingStyle {
                        expected: String::from_str(e.name()),
                        found: String::from_str(found.name()),
                    };
                    out.push(finding_of(message, nodes[k].position, fix));
                }
                proof {
                    assert(diag_views(out@) =~= before + heading_form_finding(nodes@[k as int], n as int, line@, e));
                }
            },
            _ => {
                proof {
                    assert(diag_views(out@) =~= before + Seq::<DiagView>::empty());
                }
            },
        }
        k = k + 1;
    }
    out
}

} // verus!
