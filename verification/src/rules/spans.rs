//! Rules that read the source text of inline nodes: emphasis marker consistency, spaces just
//! inside code spans and link text, and the allowed link and image styles.
//!
//! The parser reports columns in UTF-16 code units; where a rule slices the source it first turns
//! them into character columns (`char_column`), so that spans around wide characters line up.
use crate::config::{as_flag, as_text, LintConfig};
use crate::doc::{DocNode, Document, NodeKind};
use crate::fix::{range_span, slice};
use crate::message::{LintMessage, RuleId};
use crate::rules::lines::line_range;
use crate::rules::{concat_upto, finding, finding_of, spec_default_severity};
use crate::text::{
    char_column, char_column_exec, chars_eq, copy_range, count_while, count_while_rev, push_chars,
    run_before, run_from, str_eq, trim, trim_chars, CharClass,
};
use crate::{diag_views, DiagView, Diagnostic, Fix, Range};
use vstd::prelude::*;

verus! {

/// `p` with its columns turned from bytes into characters, where both fall on character
/// boundaries of their lines.
pub open spec fn char_range(s: Seq<char>, p: Range) -> Option<Range> {
    match (
        char_column(s, p.start_line as int, p.start_column as int),
        char_column(s, p.end_line as int, p.end_column as int),
    ) {
        (Some(a), Some(b)) => Some(
            Range {
                start_line: p.start_line,
                start_column: a as usize,
                end_line: p.end_line,
                end_column: b as usize,
            },
        ),
        _ => None,
    }
}

fn char_range_exec(s: &Vec<char>, p: Range) -> (r: Option<Range>)
    requires
        s@.len() < usize::MAX,
    ensures
        r == char_range(s@, p),
{
    match (
        char_column_exec(s, p.start_line, p.start_column),
        char_column_exec(s, p.end_line, p.end_column),
    ) {
        (Some(a), Some(b)) => Some(
            Range {
                start_line: p.start_line,
                start_column: a,
                end_line: p.end_line,
                end_column: b,
            },
        ),
        _ => None,
    }
}

/// The source text of node `k` when it is of kind `kind` and lies on one line, with its range
/// in characters.
pub open spec fn inline_span(nodes: Seq<DocNode>, s: Seq<char>, k: int, kind: NodeKind) -> Option<
    (Range, Seq<char>),
> {
    let node = nodes[k];
    if node.kind != kind {
        None
    } else {
        match node.position {
            Some(p) => if p.start_line != p.end_line {
                None
            } else {
                match char_range(s, p) {
                    Some(r) => match range_span(s, r) {
                        Some((a, b)) => Some((r, s.subrange(a, b))),
                        None => None,
                    },
                    None => None,
                }
            },
            None => None,
        }
    }
}

fn inline_span_exec(nodes: &Vec<DocNode>, s: &Vec<char>, k: usize, kind: NodeKind) -> (r: Option<
    (Range, Vec<char>),
>)
    requires
        k < nodes@.len(),
        s@.len() < usize::MAX,
    ensures
        match r {
            Some((x, v)) => inline_span(nodes@, s@, k as int, kind) == Some((x, v@)),
            None => inline_span(nodes@, s@, k as int, kind) is None,
        },
{
    let node = &nodes[k];
    if node.kind != kind {
        return None;
    }
    match node.position {
        Some(p) => {
            if p.start_line != p.end_line {
                return None;
            }
            match char_range_exec(s, p) {
                Some(r) => match slice(s, r) {
                    Some(v) => Some((r, v)),
                    None => None,
                },
                None => None,
            }
        },
        None => None,
    }
}

// ---------------------------------------------------------------------------------------------
// emphasis_style

/// The marker of an emphasis span written `*text*` or `_text_`.
pub open spec fn emphasis_marker(raw: Seq<char>) -> Option<char> {
    if raw.len() >= 3 && (raw[0] == '*' || raw[0] == '_') && raw.last() == raw[0] {
        Some(raw[0])
    } else {
        None
    }
}

/// Emphasis node `k` on one line with a marker: its range, text and marker.
pub open spec fn marked_emphasis(nodes: Seq<DocNode>, s: Seq<char>, k: int) -> Option<
    (Range, Seq<char>, char),
> {
    match inline_span(nodes, s, k, NodeKind::Emphasis) {
        Some((r, raw)) => match emphasis_marker(raw) {
            Some(m) => Some((r, raw, m)),
            None => None,
        },
        None => None,
    }
}

/// The marker of the first marked emphasis of `nodes[k..]`.
pub open spec fn first_emphasis_marker(nodes: Seq<DocNode>, s: Seq<char>, k: int) -> Option<char>
    decreases nodes.len() - k,
{
    if k < 0 || k >= nodes.len() {
        None
    } else {
        match marked_emphasis(nodes, s, k) {
            Some((_, _, m)) => Some(m),
            None => first_emphasis_marker(nodes, s, k + 1),
        }
    }
}

/// The marker a `style` option names: `asterisk` or `underscore`.
pub open spec fn configured_marker(style: Seq<char>) -> Option<char> {
    if style == "asterisk"@ {
        Some('*')
    } else if style == "underscore"@ {
        Some('_')
    } else {
        None
    }
}

/// The expected marker: the `style` option's, else the first marked emphasis's.
pub open spec fn expected_marker(nodes: Seq<DocNode>, s: Seq<char>, config: LintConfig) -> Option<char> {
    match as_text(config.spec_rule_option(RuleId::EmphasisStyle, "style"@)) {
        Some(t) => match configured_marker(t) {
            Some(m) => Some(m),
            None => first_emphasis_marker(nodes, s, 0),
        },
        None => first_emphasis_marker(nodes, s, 0),
    }
}

pub open spec fn emphasis_each(nodes: Seq<DocNode>, s: Seq<char>, expected: Option<char>) -> spec_fn(
    int,
) -> Seq<DiagView> {
    |k: int|
        match (marked_emphasis(nodes, s, k), expected) {
            (Some((r, raw, found)), Some(e)) => if found != e {
                seq![
                    finding(
                        LintMessage::EmphasisStyle { expected: e, found },
                        Some(r),
                        Some((r, seq![e] + raw.subrange(1, raw.len() - 1) + seq![e])),
                    ),
                ]
            } else {
                Seq::empty()
            },
            _ => Seq::empty(),
        }
}

/// One finding per one-line emphasis whose marker differs from the expected one.
pub open spec fn spec_emphasis_style(nodes: Seq<DocNode>, s: Seq<char>, config: LintConfig) -> Seq<
    DiagView,
> {
    concat_upto(nodes.len() as int, emphasis_each(nodes, s, expected_marker(nodes, s, config)))
}

fn marked_emphasis_exec(nodes: &Vec<DocNode>, s: &Vec<char>, k: usize) -> (r: Option<
    (Range, Vec<char>, char),
>)
    requires
        k < nodes@.len(),
        s@.len() < usize::MAX,
    ensures
        match r {
            Some((x, v, m)) => marked_emphasis(nodes@, s@, k as int) == Some((x, v@, m)),
            None => marked_emphasis(nodes@, s@, k as int) is None,
        },
{
    match inline_span_exec(nodes, s, k, NodeKind::Emphasis) {
        Some((r, raw)) => {
            let n = raw.len();
            if n >= 3 && (raw[0] == '*' || raw[0] == '_') && raw[n - 1] == raw[0] {
                let m = raw[0];
                Some((r, raw, m))
            } else {
                None
            }
        },
        None => None,
    }
}

/// Flags a one-line emphasis written with another marker (`*` or `_`) than the `style` option
/// names, or than the first emphasis; the fix swaps the markers.
pub fn emphasis_style(doc: &Document, source: &str, config: &LintConfig) -> (r: Vec<Diagnostic>)
    requires
        source@.len() < usize::MAX,
    ensures
        diag_views(r@) == spec_emphasis_style(doc.nodes@, source@, *config),
{
    let nodes = &doc.nodes;
    let src = crate::text::chars_of(source);
    let configured = match config.get_str(RuleId::EmphasisStyle, "style") {
        Some(t) => if str_eq(t.as_str(), "asterisk") {
            Some('*')
        } else if str_eq(t.as_str(), "underscore") {
            Some('_')
        } else {
            None
        },
        None => None,
    };
    let expected: Option<char> = match configured {
        Some(m) => Some(m),
        None => {
            let mut k: usize = 0;
            let mut found: Option<char> = None;
            while k < nodes.len()
                invariant_except_break
                    found is None,
                invariant
                    k <= nodes@.len(),
                    src@ == source@,
                    source@.len() < usize::MAX,
                    first_emphasis_marker(nodes@, src@, 0) == first_emphasis_marker(
                        nodes@,
                        src@,
                        k as int,
                    ),
                ensures
                    found == first_emphasis_marker(nodes@, src@, 0),
                decreases nodes@.len() - k,
            {
                match marked_emphasis_exec(nodes, &src, k) {
                    Some((_, _, m)) => {
                        found = Some(m);
                        break;
                    },
                    None => {},
                }
                k = k + 1;
            }
            found
        },
    };
    proof {
        assert(expected == expected_marker(nodes@, source@, *config));
    }
    let mut out: Vec<Diagnostic> = Vec::new();
    let mut k: usize = 0;
    proof {
        assert(diag_views(out@) =~= Seq::<DiagView>::empty());
    }
    while k < nodes.len()
        invariant
            k <= nodes@.len(),
            src@ == source@,
            source@.len() < usize::MAX,
            expected == expected_marker(nodes@, source@, *config),
            diag_views(out@) == concat_upto(k as int, emphasis_each(nodes@, source@, expected)),
        decreases nodes@.len() - k,
    {
        let ghost before = diag_views(out@);
        match (marked_emphasis_exec(nodes, &src, k), expected) {
            (Some((r, raw, found)), Some(e)) => {
                if found != e {
                    let n = raw.len();
                    let inner = copy_range(&raw, 1, n - 1);
                    let mut rep = String::new();
                    crate::text::push_char(&mut rep, e);
                    push_chars(&mut rep, &inner);
                    crate::text::push_char(&mut rep, e);
                    let fix = Fix { range: r, replacement: rep };
                    out.push(finding_of(LintMessage::EmphasisStyle { expected: e, found }, Some(r), Some(fix)));
                    proof {
                        assert(rep@ =~= seq![e] + raw@.subrange(1, raw@.len() - 1) + seq![e]);
                    }
                }
                proof {
                    assert(diag_views(out@) =~= before + emphasis_each(nodes@, source@, expected)(k as int));
                }
            },
            _ => {
                proof {
                    assert(diag_views(out@) =~= before + emphasis_each(nodes@, source@, expected)(k as int));
                }
            },
        }
        k = k + 1;
    }
    out
}

// ---------------------------------------------------------------------------------------------
// strong_style

/// The marker of a strong span written `**text**` or `__text__`.
pub open spec fn strong_marker(raw: Seq<char>) -> Option<char> {
    if raw.len() >= 5 && (raw[0] == '*' || raw[0] == '_') && raw[1] == raw[0] && raw.last() == raw[0]
        && raw[raw.len() - 2] == raw[0] {
        Some(raw[0])
    } else {
        None
    }
}

/// Strong node `k` on one line with a marker: its range, text and marker.
pub open spec fn marked_strong(nodes: Seq<DocNode>, s: Seq<char>, k: int) -> Option<(Range, Seq<char>, char)> {
    match inline_span(nodes, s, k, NodeKind::Strong) {
        Some((r, raw)) => match strong_marker(raw) {
            Some(m) => Some((r, raw, m)),
            None => None,
        },
        None => None,
    }
}

/// The marker of the first marked strong span of `nodes[k..]`.
pub open spec fn first_strong_marker(nodes: Seq<DocNode>, s: Seq<char>, k: int) -> Option<char>
    decreases nodes.len() - k,
{
    if k < 0 || k >= nodes.len() {
        None
    } else {
        match marked_strong(nodes, s, k) {
            Some((_, _, m)) => Some(m),
            None => first_strong_marker(nodes, s, k + 1),
        }
    }
}

/// The expected strong marker: the `style` option's, else the first marked strong span's.
pub open spec fn expected_strong_marker(nodes: Seq<DocNode>, s: Seq<char>, config: LintConfig) -> Option<char> {
    match as_text(config.spec_rule_option(RuleId::StrongStyle, "style"@)) {
        Some(t) => match configured_marker(t) {
            Some(m) => Some(m),
            None => first_strong_marker(nodes, s, 0),
        },
        None => first_strong_marker(nodes, s, 0),
    }
}

/// The finding for a strong span at `r` written `raw` with marker `found` where `expected` is
/// wanted; the fix rewrites its markers.
pub open spec fn strong_finding(r: Range, raw: Seq<char>, expected: char, found: char) -> DiagView {
    DiagView {
        rule: RuleId::StrongStyle,
        text: "strong marker `"@ + seq![found, found] + "`, expected `"@ + seq![expected, expected]
            + "` (for consistency)"@,
        severity: spec_default_severity(RuleId::StrongStyle),
        range: Some(r),
        fix: Some((r, seq![expected, expected] + raw.subrange(2, raw.len() - 2) + seq![expected, expected])),
    }
}

pub open spec fn strong_each(nodes: Seq<DocNode>, s: Seq<char>, expected: Option<char>) -> spec_fn(int) -> Seq<DiagView> {
    |k: int|
        match (marked_strong(nodes, s, k), expected) {
            (Some((r, raw, found)), Some(e)) => if found != e {
                seq![strong_finding(r, raw, e, found)]
            } else {
                Seq::empty()
            },
            _ => Seq::empty(),
        }
}

/// One finding per one-line strong span whose marker differs from the expected one.
pub open spec fn spec_strong_style(nodes: Seq<DocNode>, s: Seq<char>, config: LintConfig) -> Seq<DiagView> {
    concat_upto(nodes.len() as int, strong_each(nodes, s, expected_strong_marker(nodes, s, config)))
}

fn marked_strong_exec(nodes: &Vec<DocNode>, s: &Vec<char>, k: usize) -> (r: Option<(Range, Vec<char>, char)>)
    requires
        k < nodes@.len(),
        s@.len() < usize::MAX,
    ensures
        match r {
            Some((x, v, m)) => marked_strong(nodes@, s@, k as int) == Some((x, v@, m)),
            None => marked_strong(nodes@, s@, k as int) is None,
        },
{
    match inline_span_exec(nodes, s, k, NodeKind::Strong) {
        Some((r, raw)) => {
            let n = raw.len();
            if n >= 5 && (raw[0] == '*' || raw[0] == '_') && raw[1] == raw[0] && raw[n - 1] == raw[0]
                && raw[n - 2] == raw[0] {
                let m = raw[0];
                Some((r, raw, m))
            } else {
                None
            }
        },
        None => None,
    }
}

/// The marker `c` written twice.
fn doubled(c: char) -> (r: String)
    ensures
        r@ == seq![c, c],
{
    let mut r = String::new();
    crate::text::push_char(&mut r, c);
    crate::text::push_char(&mut r, c);
    proof {
        assert(r@ =~= seq![c, c]);
    }
    r
}

/// Flags a one-line strong span written with another marker (`**` or `__`) than the `style`
/// option names, or than the first strong span; the fix swaps the markers.
pub fn strong_style(doc: &Document, source: &str, config: &LintConfig) -> (r: Vec<Diagnostic>)
    requires
        source@.len() < usize::MAX,
    ensures
        diag_views(r@) == spec_strong_style(doc.nodes@, source@, *config),
{
    let nodes = &doc.nodes;
    let src = crate::text::chars_of(source);
    let configured = match config.get_str(RuleId::StrongStyle, "style") {
        Some(t) => if str_eq(t.as_str(), "asterisk") {
            Some('*')
        } else if str_eq(t.as_str(), "underscore") {
            Some('_')
        } else {
            None
        },
        None => None,
    };
    let expected: Option<char> = match configured {
        Some(m) => Some(m),
        None => {
            let mut k: usize = 0;
            let mut found: Option<char> = None;
            while k < nodes.len()
                invariant_except_break
                    found is None,
                invariant
                    k <= nodes@.len(),
                    src@ == source@,
                    source@.len() < usize::MAX,
                    first_strong_marker(nodes@, src@, 0) == first_strong_marker(nodes@, src@, k as int),
                ensures
                    found == first_strong_marker(nodes@, src@, 0),
                decreases nodes@.len() - k,
            {
                match marked_strong_exec(nodes, &src, k) {
                    Some((_, _, m)) => {
                        found = Some(m);
                        break;
                    },
                    None => {},
                }
                k = k + 1;
            }
            found
        },
    };
    proof {
        assert(expected == expected_strong_marker(nodes@, source@, *config));
    }
    let mut out: Vec<Diagnostic> = Vec::new();
    let mut k: usize = 0;
    proof {
        assert(diag_views(out@) =~= Seq::<DiagView>::empty());
    }
    while k < nodes.len()
        invariant
            k <= nodes@.len(),
            src@ == source@,
            source@.len() < usize::MAX,
            expected == expected_strong_marker(nodes@, source@, *config),
            diag_views(out@) == concat_upto(k as int, strong_each(nodes@, source@, expected)),
        decreases nodes@.len() - k,
    {
        let ghost before = diag_views(out@);
        match (marked_strong_exec(nodes, &src, k), expected) {
            (Some((r, raw, found)), Some(e)) => {
                if found != e {
                    let n = raw.len();
                    let inner = copy_range(&raw, 2, n - 2);
                    let mut rep = doubled(e);
                    push_chars(&mut rep, &inner);
                    crate::text::push_char(&mut rep, e);
                    crate::text::push_char(&mut rep, e);
                    let fix = Fix { range: r, replacement: rep };
                    let message = LintMessage::StrongStyle { expected: doubled(e), found: doubled(found) };
                    out.push(finding_of(message, Some(r), Some(fix)));
                    proof {
                        assert(rep@ =~= seq![e, e] + raw@.subrange(2, raw@.len() - 2) + seq![e, e]);
                    }
                }
                proof {
                    assert(diag_views(out@) =~= before + strong_each(nodes@, source@, expected)(k as int));
                }
            },
            _ => {
                proof {
                    assert(diag_views(out@) =~= before + strong_each(nodes@, source@, expected)(k as int));
                }
            },
        }
        k = k + 1;
    }
    out
}

// ---------------------------------------------------------------------------------------------
// no_space_in_code

/// `s` without leading or trailing spaces.
pub open spec fn trim_spaces(s: Seq<char>) -> Seq<char> {
    let a = s.skip(count_while(s, CharClass::Exactly(' ')) as int);
    a.take(a.len() - count_while_rev(a, CharClass::Exactly(' ')))
}

/// The finding for code span text `raw` at `r`: spaces just inside the backticks, where the
/// content is not all spaces; the fix trims them.
pub open spec fn code_span_finding(r: Range, raw: Seq<char>) -> Seq<DiagView> {
    let ticks = count_while(raw, CharClass::Exactly('`')) as int;
    if ticks == 0 || raw.len() < 2 * ticks || r.end_column < ticks {
        Seq::empty()
    } else {
        let inner = raw.subrange(ticks, raw.len() - ticks);
        let trimmed = trim_spaces(inner);
        if inner != trimmed && trimmed.len() > 0 {
            let range = line_range(
                r.start_line as int,
                r.start_column + ticks,
                r.end_column - ticks,
            );
            seq![finding(LintMessage::NoSpaceInCode, Some(range), Some((range, trimmed)))]
        } else {
            Seq::empty()
        }
    }
}

pub open spec fn code_span_each(nodes: Seq<DocNode>, s: Seq<char>) -> spec_fn(int) -> Seq<DiagView> {
    |k: int|
        match inline_span(nodes, s, k, NodeKind::CodeInline) {
            Some((r, raw)) => code_span_finding(r, raw),
            None => Seq::empty(),
        }
}

/// One finding per one-line code span with spaces just inside its backticks.
pub open spec fn spec_no_space_in_code(nodes: Seq<DocNode>, s: Seq<char>) -> Seq<DiagView> {
    concat_upto(nodes.len() as int, code_span_each(nodes, s))
}

fn code_span_finding_exec(r: Range, raw: &Vec<char>) -> (out: Vec<Diagnostic>)
    requires
        r.start_column + raw@.len() <= usize::MAX,
    ensures
        diag_views(out@) == code_span_finding(r, raw@),
{
    let mut out: Vec<Diagnostic> = Vec::new();
    let ticks = run_from(raw, 0, CharClass::Exactly('`'));
    proof {
        assert(raw@.skip(0) =~= raw@);
    }
    let n = raw.len();
    if ticks == 0 || n - ticks < ticks || r.end_column < ticks {
        proof {
            assert(diag_views(out@) =~= code_span_finding(r, raw@));
        }
        return out;
    }
    let inner = copy_range(raw, ticks, n - ticks);
    let a = run_from(&inner, 0, CharClass::Exactly(' '));
    proof {
        assert(inner@.skip(0) =~= inner@);
    }
    let rest = copy_range(&inner, a, inner.len());
    let b = run_before(&rest, rest.len(), CharClass::Exactly(' '));
    proof {
        assert(rest@.take(rest@.len() as int) =~= rest@);
    }
    let trimmed = copy_range(&rest, 0, rest.len() - b);
    proof {
        assert(rest@ =~= inner@.skip(count_while(inner@, CharClass::Exactly(' ')) as int));
        assert(trimmed@ =~= trim_spaces(inner@));
    }
    if !chars_eq(&inner, &trimmed) && trimmed.len() > 0 {
        let range = Range::single_line(r.start_line, r.start_column + ticks, r.end_column - ticks);
        let fix = Fix { range, replacement: crate::text::string_of(&trimmed) };
        out.push(finding_of(LintMessage::NoSpaceInCode, Some(range), Some(fix)));
    }
    proof {
        assert(diag_views(out@) =~= code_span_finding(r, raw@));
    }
    out
}

/// Flags a one-line code span with spaces just inside its backticks; the fix trims them.
pub fn no_space_in_code(doc: &Document, source: &str) -> (r: Vec<Diagnostic>)
    requires
        source@.len() < usize::MAX,
    ensures
        diag_views(r@) == spec_no_space_in_code(doc.nodes@, source@),
{
    let nodes = &doc.nodes;
    let src = crate::text::chars_of(source);
    let mut out: Vec<Diagnostic> = Vec::new();
    let mut k: usize = 0;
    proof {
        assert(diag_views(out@) =~= Seq::<DiagView>::empty());
    }
    while k < nodes.len()
        invariant
            k <= nodes@.len(),
            src@ == source@,
            source@.len() < usize::MAX,
            diag_views(out@) == concat_upto(k as int, code_span_each(nodes@, source@)),
        decreases nodes@.len() - k,
    {
        let ghost before = diag_views(out@);
        match inline_span_exec(nodes, &src, k, NodeKind::CodeInline) {
            Some((r, raw)) => {
                proof {
                    span_fits(src@, r, raw@);
                }
                let more = code_span_finding_exec(r, &raw);
                crate::rules::append_all(&mut out, more);
            },
            None => {
                proof {
                    assert(diag_views(out@) =~= before + Seq::<DiagView>::empty());
                }
            },
        }
        k = k + 1;
    }
    out
}

/// A span's start column plus its length stays within the source's length plus one.
proof fn span_fits(s: Seq<char>, r: Range, raw: Seq<char>)
    requires
        s.len() < usize::MAX,
        range_span(s, r) matches Some((a, b)) && raw == s.subrange(a, b),
        r.start_line == r.end_line,
    ensures
        r.start_column + raw.len() <= usize::MAX,
{
    crate::text::lemma_offset_bound(s, r.start_line as int, r.start_column as int);
    crate::text::lemma_offset_bound(s, r.end_line as int, r.end_column as int);
    lemma_column_le_offset(s, r.start_line as int, r.start_column as int);
}

/// A column is at most its offset plus one.
proof fn lemma_column_le_offset(s: Seq<char>, line: int, col: int)
    ensures
        crate::text::spec_offset(s, line, col) matches Some(o) ==> col <= o + 1,
    decreases s.len(),
{
    crate::text::lemma_count_while_bounds(s, CharClass::NotNewline);
    let k = count_while(s, CharClass::NotNewline) as int;
    if line >= 1 && col >= 1 && line != 1 && k < s.len() {
        lemma_column_le_offset(s.skip(k + 1), line - 1, col);
    }
}

// ---------------------------------------------------------------------------------------------
// no_space_in_links

/// The source text of link node `k` on one line, taken at the parser's columns, and its
/// position.
pub open spec fn link_text_span(nodes: Seq<DocNode>, s: Seq<char>, k: int) -> Option<(Range, Seq<char>)> {
    let node = nodes[k];
    if node.kind != NodeKind::Link {
        None
    } else {
        match node.position {
            Some(p) => if p.start_line != p.end_line {
                None
            } else {
                match range_span(s, p) {
                    Some((a, b)) => Some((p, s.subrange(a, b))),
                    None => None,
                }
            },
            None => None,
        }
    }
}

/// The finding for link text `raw` at `p`: whitespace just inside the `[...]`, where the text
/// is not all whitespace; the fix trims it.
pub open spec fn link_space_finding(p: Range, raw: Seq<char>) -> Seq<DiagView> {
    let open = count_while(raw, CharClass::Not('[')) as int;
    if open >= raw.len() {
        Seq::empty()
    } else {
        let close = open + count_while(raw.skip(open), CharClass::Not(']')) as int;
        if close >= raw.len() {
            Seq::empty()
        } else {
            let inner = raw.subrange(open + 1, close);
            let t = trim(inner);
            if inner != t && t.len() > 0 {
                let range = line_range(
                    p.start_line as int,
                    p.start_column + open + 1,
                    p.start_column + close,
                );
                seq![finding(LintMessage::NoSpaceInLinks, Some(range), Some((range, t)))]
            } else {
                Seq::empty()
            }
        }
    }
}

pub open spec fn link_space_each(nodes: Seq<DocNode>, s: Seq<char>) -> spec_fn(int) -> Seq<DiagView> {
    |k: int|
        match link_text_span(nodes, s, k) {
            Some((p, raw)) => link_space_finding(p, raw),
            None => Seq::empty(),
        }
}

/// One finding per one-line link with whitespace just inside its text brackets.
pub open spec fn spec_no_space_in_links(nodes: Seq<DocNode>, s: Seq<char>) -> Seq<DiagView> {
    concat_upto(nodes.len() as int, link_space_each(nodes, s))
}

fn link_text_span_exec(nodes: &Vec<DocNode>, s: &Vec<char>, k: usize) -> (r: Option<(Range, Vec<char>)>)
    requires
        k < nodes@.len(),
    ensures
        match r {
            Some((x, v)) => link_text_span(nodes@, s@, k as int) == Some((x, v@)),
            None => link_text_span(nodes@, s@, k as int) is None,
        },
{
    let node = &nodes[k];
    if node.kind != NodeKind::Link {
        return None;
    }
    match node.position {
        Some(p) => {
            if p.start_line != p.end_line {
                return None;
            }
            match slice(s, p) {
                Some(v) => Some((p, v)),
                None => None,
            }
        },
        None => None,
    }
}

fn link_space_finding_exec(p: Range, raw: &Vec<char>) -> (out: Vec<Diagnostic>)
    requires
        p.start_column + raw@.len() <= usize::MAX,
    ensures
        diag_views(out@) == link_space_finding(p, raw@),
{
    let mut out: Vec<Diagnostic> = Vec::new();
    let open = run_from(raw, 0, CharClass::Not('['));
    proof {
        assert(raw@.skip(0) =~= raw@);
    }
    if open >= raw.len() {
        proof {
            assert(diag_views(out@) =~= link_space_finding(p, raw@));
        }
        return out;
    }
    proof {
        crate::text::lemma_count_while_bounds(raw@, CharClass::Not('['));
        assert(raw@.skip(open as int)[0] == raw@[open as int]);
    }
    let close = open + run_from(raw, open, CharClass::Not(']'));
    if close >= raw.len() {
        proof {
            assert(diag_views(out@) =~= link_space_finding(p, raw@));
        }
        return out;
    }
    let inner = copy_range(raw, open + 1, close);
    let t = trim_chars(&inner);
    if !chars_eq(&inner, &t) && t.len() > 0 {
        let range = Range::single_line(p.start_line, p.start_column + open + 1, p.start_column + close);
        let fix = Fix { range, replacement: crate::text::string_of(&t) };
        out.push(finding_of(LintMessage::NoSpaceInLinks, Some(range), Some(fix)));
    }
    proof {
        assert(diag_views(out@) =~= link_space_finding(p, raw@));
    }
    out
}

/// Flags a one-line link with whitespace just inside its text brackets; the fix trims it.
pub fn no_space_in_links(doc: &Document, source: &str) -> (r: Vec<Diagnostic>)
    requires
        source@.len() < usize::MAX,
    ensures
        diag_views(r@) == spec_no_space_in_links(doc.nodes@, source@),
{
    let nodes = &doc.nodes;
    let src = crate::text::chars_of(source);
    let mut out: Vec<Diagnostic> = Vec::new();
    let mut k: usize = 0;
    proof {
        assert(diag_views(out@) =~= Seq::<DiagView>::empty());
    }
    while k < nodes.len()
        invariant
            k <= nodes@.len(),
            src@ == source@,
            source@.len() < usize::MAX,
            diag_views(out@) == concat_upto(k as int, link_space_each(nodes@, source@)),
        decreases nodes@.len() - k,
    {
        let ghost before = diag_views(out@);
        match link_text_span_exec(nodes, &src, k) {
            Some((p, raw)) => {
                proof {
                    span_fits(src@, p, raw@);
                }
                let more = link_space_finding_exec(p, &raw);
                crate::rules::append_all(&mut out, more);
            },
            None => {
                proof {
                    assert(diag_views(out@) =~= before + Seq::<DiagView>::empty());
                }
            },
        }
        k = k + 1;
    }
    out
}

// ---------------------------------------------------------------------------------------------
// link_image_style

/// The link and image styles, by number: `autolink`, `inline`, `full`, `collapsed`,
/// `shortcut`.
pub open spec fn style_name(i: int) -> Seq<char> {
    if i == 0 {
        "autolink"@
    } else if i == 1 {
        "inline"@
    } else if i == 2 {
        "full"@
    } else if i == 3 {
        "collapsed"@
    } else {
        "shortcut"@
    }
}

fn style_name_exec(i: usize) -> (r: &'static str)
    ensures
        r@ == style_name(i as int),
{
    if i == 0 {
        "autolink"
    } else if i == 1 {
        "inline"
    } else if i == 2 {
        "full"
    } else if i == 3 {
        "collapsed"
    } else {
        "shortcut"
    }
}

/// Whether the configuration turns style `i` off (`<style> = false`).
pub open spec fn style_off(config: LintConfig, i: int) -> bool {
    as_flag(config.spec_rule_option(RuleId::LinkImageStyle, style_name(i))) == Some(false)
}

/// Whether the configuration turns any style off.
pub open spec fn any_style_off(config: LintConfig) -> bool {
    style_off(config, 0) || style_off(config, 1) || style_off(config, 2) || style_off(config, 3)
        || style_off(config, 4)
}

/// How many times `c` occurs in `s`.
pub open spec fn count_char(s: Seq<char>, c: char) -> nat
    decreases s.len(),
{
    if s.len() == 0 {
        0
    } else {
        count_char(s.drop_last(), c) + if s.last() == c {
            1nat
        } else {
            0nat
        }
    }
}

/// The style of link or image text `raw`: an autolink starts with `<`; a collapsed reference
/// ends with `[]`; a full reference ends with `]` and has two `[`; an inline link ends with
/// `)`; anything else is a shortcut reference.
pub open spec fn link_style(raw: Seq<char>) -> int {
    if raw.len() > 0 && raw[0] == '<' {
        0
    } else if raw.len() >= 2 && raw[raw.len() - 2] == '[' && raw.last() == ']' {
        3
    } else if raw.len() > 0 && raw.last() == ']' && count_char(raw, '[') >= 2 {
        2
    } else if raw.len() > 0 && raw.last() == ')' {
        1
    } else {
        4
    }
}

/// The names of the styles from `i` on that the configuration leaves on.
pub open spec fn allowed_styles(config: LintConfig, i: int) -> Seq<Seq<char>>
    decreases 5 - i,
{
    if i >= 5 {
        Seq::empty()
    } else if style_off(config, i) {
        allowed_styles(config, i + 1)
    } else {
        seq![style_name(i)] + allowed_styles(config, i + 1)
    }
}

/// `names` joined with `/`.
pub open spec fn slash_joined(names: Seq<Seq<char>>) -> Seq<char>
    decreases names.len(),
{
    if names.len() == 0 {
        Seq::empty()
    } else if names.len() == 1 {
        names[0]
    } else {
        names[0] + "/"@ + slash_joined(names.drop_first())
    }
}

/// The source text of link or image node `k`, its columns turned into characters, and its
/// position as the parser gives it.
pub open spec fn link_or_image_span(nodes: Seq<DocNode>, s: Seq<char>, k: int) -> Option<(Range, Seq<char>)> {
    let node = nodes[k];
    if node.kind != NodeKind::Link && node.kind != NodeKind::LinkRef && node.kind != NodeKind::Image
        && node.kind != NodeKind::ImageRef {
        None
    } else {
        match node.position {
            Some(p) => match char_range(s, p) {
                Some(r) => match range_span(s, r) {
                    Some((a, b)) => Some((p, s.subrange(a, b))),
                    None => None,
                },
                None => None,
            },
            None => None,
        }
    }
}

pub open spec fn link_style_each(nodes: Seq<DocNode>, s: Seq<char>, config: LintConfig) -> spec_fn(
    int,
) -> Seq<DiagView> {
    |k: int|
        match link_or_image_span(nodes, s, k) {
            Some((p, raw)) => if style_off(config, link_style(raw)) {
                seq![
                    DiagView {
                        rule: RuleId::LinkImageStyle,
                        text: "link/image style is "@ + style_name(link_style(raw)) + ", expected "@
                            + slash_joined(allowed_styles(config, 0)) + " (for consistency)"@,
                        severity: spec_default_severity(RuleId::LinkImageStyle),
                        range: Some(p),
                        fix: None,
                    },
                ]
            } else {
                Seq::empty()
            },
            None => Seq::empty(),
        }
}

/// With some style turned off, one finding per link or image written in a style that is off;
/// none otherwise.
pub open spec fn spec_link_image_style(nodes: Seq<DocNode>, s: Seq<char>, config: LintConfig) -> Seq<
    DiagView,
> {
    if any_style_off(config) {
        concat_upto(nodes.len() as int, link_style_each(nodes, s, config))
    } else {
        Seq::empty()
    }
}

fn link_or_image_span_exec(nodes: &Vec<DocNode>, s: &Vec<char>, k: usize) -> (r: Option<(Range, Vec<char>)>)
    requires
        k < nodes@.len(),
        s@.len() < usize::MAX,
    ensures
        match r {
            Some((x, v)) => link_or_image_span(nodes@, s@, k as int) == Some((x, v@)),
            None => link_or_image_span(nodes@, s@, k as int) is None,
        },
{
    let node = &nodes[k];
    if node.kind != NodeKind::Link && node.kind != NodeKind::LinkRef && node.kind != NodeKind::Image
        && node.kind != NodeKind::ImageRef {
        return None;
    }
    match node.position {
        Some(p) => match char_range_exec(s, p) {
            Some(r) => match slice(s, r) {
                Some(v) => Some((p, v)),
                None => None,
            },
            None => None,
        },
        None => None,
    }
}

fn count_char_exec(s: &Vec<char>, c: char) -> (r: usize)
    ensures
        r == count_char(s@, c),
{
    let mut n: usize = 0;
    let mut i: usize = 0;
    while i < s.len()
        invariant
            i <= s@.len(),
            n <= i,
            n == count_char(s@.take(i as int), c),
        decreases s@.len() - i,
    {
        proof {
            assert(s@.take(i + 1).drop_last() =~= s@.take(i as int));
        }
        if s[i] == c {
            n = n + 1;
        }
        i = i + 1;
    }
    proof {
        assert(s@.take(s@.len() as int) =~= s@);
    }
    n
}

fn link_style_exec(raw: &Vec<char>) -> (r: usize)
    ensures
        r as int == link_style(raw@),
{
    let n = raw.len();
    if n > 0 && raw[0] == '<' {
        0
    } else if n >= 2 && raw[n - 2] == '[' && raw[n - 1] == ']' {
        3
    } else if n > 0 && raw[n - 1] == ']' && count_char_exec(raw, '[') >= 2 {
        2
    } else if n > 0 && raw[n - 1] == ')' {
        1
    } else {
        4
    }
}

/// Flags, when the configuration turns a link or image style off, each link or image written
/// in such a style.
pub fn link_image_style(doc: &Document, source: &str, config: &LintConfig) -> (r: Vec<Diagnostic>)
    requires
        source@.len() < usize::MAX,
    ensures
        diag_views(r@) == spec_link_image_style(doc.nodes@, source@, *config),
{
    let mut off: Vec<bool> = Vec::new();
    let mut i: usize = 0;
    while i < 5
        invariant
            i <= 5,
            off@.len() == i,
            forall|j: int| 0 <= j < i ==> off@[j] == style_off(*config, j),
        decreases 5 - i,
    {
        let flag = config.get_bool(RuleId::LinkImageStyle, style_name_exec(i));
        off.push(flag == Some(false));
        i = i + 1;
    }
    let mut out: Vec<Diagnostic> = Vec::new();
    if !(off[0] || off[1] || off[2] || off[3] || off[4]) {
        proof {
            assert(diag_views(out@) =~= Seq::<DiagView>::empty());
        }
        return out;
    }
    let mut expected = String::new();
    let mut any = false;
    let mut j: usize = 0;
    let ghost mut names: Seq<Seq<char>> = Seq::empty();
    proof {
        assert(names + allowed_styles(*config, 0) =~= allowed_styles(*config, 0));
    }
    while j < 5
        invariant
            j <= 5,
            off@.len() == 5,
            forall|m: int| 0 <= m < 5 ==> off@[m] == style_off(*config, m),
            names + allowed_styles(*config, j as int) == allowed_styles(*config, 0),
            expected@ == slash_joined(names),
            any == (names.len() > 0),
        decreases 5 - j,
    {
        if !off[j] {
            proof {
                lemma_slash_joined_push(names, style_name(j as int));
            }
            if any {
                expected.append("/");
            }
            any = true;
            expected.append(style_name_exec(j));
            proof {
                assert(allowed_styles(*config, j as int) == seq![style_name(j as int)] + allowed_styles(*config, j + 1));
                assert(names.push(style_name(j as int)) + allowed_styles(*config, j + 1) =~= names + allowed_styles(*config, j as int));
                names = names.push(style_name(j as int));
            }
        }
        j = j + 1;
    }
    proof {
        assert(names =~= allowed_styles(*config, 0));
    }
    let nodes = &doc.nodes;
    let src = crate::text::chars_of(source);
    let mut k: usize = 0;
    proof {
        assert(diag_views(out@) =~= Seq::<DiagView>::empty());
    }
    while k < nodes.len()
        invariant
            k <= nodes@.len(),
            src@ == source@,
            source@.len() < usize::MAX,
            off@.len() == 5,
            forall|m: int| 0 <= m < 5 ==> off@[m] == style_off(*config, m),
            expected@ == slash_joined(allowed_styles(*config, 0)),
            diag_views(out@) == concat_upto(k as int, link_style_each(nodes@, source@, *config)),
        decreases nodes@.len() - k,
    {
        let ghost before = diag_views(out@);
        match link_or_image_span_exec(nodes, &src, k) {
            Some((p, raw)) => {
                let found = link_style_exec(&raw);
                if off[found] {
                    let message = LintMessage::LinkImageStyle {
                        expected: expected.clone(),
                        found: String::from_str(style_name_exec(found)),
                    };
                    out.push(finding_of(message, Some(p), None));
                }
                proof {
                    assert(diag_views(out@) =~= before + link_style_each(nodes@, source@, *config)(k as int));
                }
            },
            None => {
                proof {
                    assert(diag_views(out@) =~= before + Seq::<DiagView>::empty());
                }
            },
        }
        k = k + 1;
    }
    out
}

proof fn lemma_slash_joined_push(names: Seq<Seq<char>>, x: Seq<char>)
    ensures
        slash_joined(names.push(x)) == if names.len() == 0 {
            x
        } else {
            slash_joined(names) + "/"@ + x
        },
    decreases names.len(),
{
    if names.len() == 0 {
        assert(names.push(x) =~= seq![x]);
    } else if names.len() == 1 {
        let y = names.push(x);
        assert(y.drop_first() =~= seq![x]);
        assert(slash_joined(seq![x]) == x);
        assert(y[0] == names[0]);
        assert(slash_joined(y) == names[0] + "/"@ + x);
    } else {
        let y = names.push(x);
        lemma_slash_joined_push(names.drop_first(), x);
        assert(y.drop_first() =~= names.drop_first().push(x));
        assert(y[0] == names[0]);
        assert(slash_joined(y) =~= slash_joined(names) + "/"@ + x);
    }
}

} // verus!
