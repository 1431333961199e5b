//! Rules about the document as a whole: one top-level heading, and a single newline at the end.
use crate::doc::{DocNode, Document, NodeKind};
use crate::message::LintMessage;
use crate::rules::{concat_upto, finding, finding_of};
use crate::rules::lines::{lemma_source_lines, source_lines};
use crate::text::{chars_of, lines_view, spec_lines};
use crate::{Fix, Range};
use crate::{diag_views, DiagView, Diagnostic};
use vstd::prelude::*;

verus! {

// ---------------------------------------------------------------------------------------------
// single_h1

/// Whether `n` is a top-level (h1) heading.
pub open spec fn is_h1(n: DocNode) -> bool {
    n.kind == NodeKind::Heading && n.depth == 1
}

/// Whether one of the first `k` nodes is an h1 heading.
pub open spec fn h1_before(nodes: Seq<DocNode>, k: int) -> bool {
    exists|m: int| 0 <= m < k && is_h1(#[trigger] nodes[m])
}

/// The finding for node `k`: an h1 heading after another h1 heading.
pub open spec fn extra_h1_finding(nodes: Seq<DocNode>, k: int) -> Seq<DiagView> {
    if is_h1(nodes[k]) && h1_before(nodes, k) {
        seq![finding(LintMessage::SingleH1, nodes[k].position, None)]
    } else {
        Seq::empty()
    }
}

pub open spec fn extra_h1_each(nodes: Seq<DocNode>) -> spec_fn(int) -> Seq<DiagView> {
    |k: int| extra_h1_finding(nodes, k)
}

/// One finding per h1 heading that follows another, in document order.
pub open spec fn spec_single_h1(nodes: Seq<DocNode>) -> Seq<DiagView> {
    concat_upto(nodes.len() as int, extra_h1_each(nodes))
}

/// Flags every top-level heading after the document's first.
pub fn single_h1(doc: &Document) -> (r: Vec<Diagnostic>)
    ensures
        diag_views(r@) == spec_single_h1(doc.nodes@),
{
    let nodes = &doc.nodes;
    let mut out: Vec<Diagnostic> = Vec::new();
    let mut seen = false;
    let mut k: usize = 0;
    proof {
        assert(diag_views(out@) =~= Seq::<DiagView>::empty());
    }
    while k < nodes.len()
        invariant
            k <= nodes@.len(),
            seen == h1_before(nodes@, k as int),
            diag_views(out@) == concat_upto(k as int, extra_h1_each(nodes@)),
        decreases nodes@.len() - k,
    {
        let node = &nodes[k];
        let ghost before = diag_views(out@);
        let h1 = node.kind == NodeKind::Heading && node.depth == 1;
        if h1 && seen {
            out.push(finding_of(LintMessage::SingleH1, node.position, None));
            proof {
                assert(diag_views(out@) =~= before + extra_h1_finding(nodes@, k as int));
            }
        } else {
            proof {
                assert(extra_h1_finding(nodes@, k as int) =~= Seq::<DiagView>::empty());
                assert(diag_views(out@) =~= before + extra_h1_finding(nodes@, k as int));
            }
        }
        proof {
            if h1 {
                assert(is_h1(nodes@[k as int]));
            }
            if h1_before(nodes@, k + 1) && !h1_before(nodes@, k as int) {
                let m = choose|m: int| 0 <= m < k + 1 && is_h1(#[trigger] nodes@[m]);
                assert(m == k);
            }
        }
        seen = seen || h1;
        k = k + 1;
    }
    out
}

// ---------------------------------------------------------------------------------------------
// single_trailing_newline

/// How many newline characters `s` ends with.
pub open spec fn trailing_newlines(s: Seq<char>) -> nat
    decreases s.len(),
{
    if s.len() > 0 && s.last() == '\n' {
        1 + trailing_newlines(s.drop_last())
    } else {
        0
    }
}

/// The finding for a file that does not end with exactly one newline: where it ends without
/// one, a newline inserted after its last character; where it ends with more, the extra ones
/// (the lines after the first trailing newline) deleted. An empty file has no finding.
pub open spec fn spec_single_trailing_newline(source: Seq<char>) -> Seq<DiagView> {
    let k = trailing_newlines(source);
    let ls = spec_lines(source);
    let n = ls.len();
    if source.len() == 0 || k == 1 || n == 0 {
        Seq::empty()
    } else if k == 0 {
        let at = Range {
            start_line: n as usize,
            start_column: (ls[n - 1].len() + 1) as usize,
            end_line: n as usize,
            end_column: (ls[n - 1].len() + 1) as usize,
        };
        seq![finding(LintMessage::SingleTrailingNewline, Some(at), Some((at, seq!['\n'])))]
    } else {
        let extra = Range {
            start_line: (if n + 1 >= k {
                n + 2 - k
            } else {
                1
            }) as usize,
            start_column: 1,
            end_line: (n + 1) as usize,
            end_column: 1,
        };
        seq![finding(LintMessage::SingleTrailingNewline, Some(extra), Some((extra, Seq::empty())))]
    }
}

/// Flags a file that does not end with exactly one newline; the fix adds the missing one or
/// deletes the extra ones.
pub fn single_trailing_newline(source: &str) -> (r: Vec<Diagnostic>)
    requires
        source@.len() < usize::MAX,
    ensures
        diag_views(r@) == spec_single_trailing_newline(source@),
{
    let chars = chars_of(source);
    let total = chars.len();
    let mut k: usize = 0;
    proof {
        assert(chars@.take(total as int) =~= chars@);
    }
    while k < total && chars[total - 1 - k] == '\n'
        invariant
            k <= total,
            total == chars@.len(),
            trailing_newlines(chars@) == k + trailing_newlines(chars@.take(total - k)),
        decreases total - k,
    {
        proof {
            let m = total - k;
            assert(chars@.take(m).drop_last() =~= chars@.take(m - 1));
            assert(chars@.take(m).last() == chars@[m - 1]);
        }
        k = k + 1;
    }
    proof {
        let m = total - k;
        if m > 0 {
            assert(chars@.take(m).last() == chars@[m - 1]);
        }
        assert(trailing_newlines(chars@.take(m)) == 0);
    }
    let lines = source_lines(source);
    proof {
        lemma_source_lines(source@);
    }
    let n = lines.len();
    let mut out: Vec<Diagnostic> = Vec::new();
    if total == 0 || k == 1 || n == 0 {
        proof {
            assert(diag_views(out@) =~= spec_single_trailing_newline(source@));
        }
        return out;
    }
    if k == 0 {
        let last = lines[n - 1].len();
        proof {
            assert(lines_view(lines@)[n - 1] == lines@[n - 1]@);
        }
        let at = Range { start_line: n, start_column: last + 1, end_line: n, end_column: last + 1 };
        let mut nl = String::new();
        crate::text::push_char(&mut nl, '\n');
        out.push(finding_of(LintMessage::SingleTrailingNewline, Some(at), Some(Fix { range: at, replacement: nl })));
    } else {
        let start = if n + 1 >= k {
            n + 1 - k + 1
        } else {
            1
        };
        let extra = Range { start_line: start, start_column: 1, end_line: n + 1, end_column: 1 };
        out.push(finding_of(LintMessage::SingleTrailingNewline, Some(extra), Some(Fix { range: extra, replacement: String::new() })));
    }
    proof {
        assert(diag_views(out@) =~= spec_single_trailing_newline(source@));
    }
    out
}

} // verus!
