//! Rules about block markers in the source: the space after an ATX heading's `#`s and after a
//! blockquote's `>`, horizontal rule and code fence style, and list item indentation and
//! marker spacing.
use crate::config::{as_count, as_text, LintConfig};
use crate::doc::{DocNode, Document, NodeKind};
use crate::message::{LintMessage, RuleId};
use crate::rules::headings::line_at;
use crate::rules::lines::{
    in_code_block, lemma_source_lines, line_range, source_lines, within_code_block,
};
use crate::rules::{concat_upto, finding, finding_of, spaces, spaces_string};
use crate::text::{
    chars_of, chars_eq, count_while, lines_view, run_from, spec_lines, str_eq, string_of, trim,
    trim_chars, trim_start, CharClass,
};
use crate::{diag_views, DiagView, Diagnostic, Fix, Range};
use vstd::prelude::*;

verus! {

/// The number of whitespace characters that start `line`.
pub open spec fn indent_of(line: Seq<char>) -> int {
    count_while(line, CharClass::Whitespace) as int
}

fn indent_exec(line: &Vec<char>) -> (r: usize)
    ensures
        r == indent_of(line@),
        r <= line@.len(),
{
    let r = run_from(line, 0, CharClass::Whitespace);
    proof {
        assert(line@.skip(0) =~= line@);
    }
    r
}

// ---------------------------------------------------------------------------------------------
// no_missing_space_atx

/// The number of `#`s opening `line` when they are directly followed by text: 1 to 6 `#`s,
/// then a character that is not a space, a tab or another `#`.
pub open spec fn missing_space_hashes(line: Seq<char>) -> Option<int> {
    let t = trim_start(line);
    let h = count_while(t, CharClass::Exactly('#')) as int;
    if h == 0 || h > 6 || h >= t.len() {
        None
    } else if t[h] != ' ' && t[h] != '\t' && t[h] != '#' {
        Some(h)
    } else {
        None
    }
}

/// The finding for line `n`: text right after an ATX heading's `#`s, outside code blocks.
pub open spec fn missing_space_finding(n: int, line: Seq<char>, in_code: bool) -> Seq<DiagView> {
    match missing_space_hashes(line) {
        Some(h) => if in_code {
            Seq::empty()
        } else {
            let column = indent_of(line) + h + 1;
            let at = line_range(n, column, column);
            seq![finding(LintMessage::NoMissingSpaceAtx, Some(at), Some((at, seq![' '])))]
        },
        None => Seq::empty(),
    }
}

pub open spec fn missing_space_each(ls: Seq<Seq<char>>, nodes: Seq<DocNode>) -> spec_fn(int) -> Seq<
    DiagView,
> {
    |j: int| missing_space_finding(j + 1, ls[j], in_code_block(nodes, j + 1))
}

/// One finding per line (outside code blocks) whose ATX `#`s run straight into the text.
pub open spec fn spec_no_missing_space_atx(nodes: Seq<DocNode>, source: Seq<char>) -> Seq<
    DiagView,
> {
    let ls = spec_lines(source);
    concat_upto(ls.len() as int, missing_space_each(ls, nodes))
}

/// Flags an ATX heading with no space after its `#`s; the fix inserts one.
pub fn no_missing_space_atx(doc: &Document, source: &str) -> (r: Vec<Diagnostic>)
    requires
        source@.len() < usize::MAX,
    ensures
        diag_views(r@) == spec_no_missing_space_atx(doc.nodes@, source@),
{
    let lines = source_lines(source);
    let ghost ls = spec_lines(source@);
    proof {
        lemma_source_lines(source@);
    }
    let mut out: Vec<Diagnostic> = Vec::new();
    let mut i: usize = 0;
    proof {
        assert(diag_views(out@) =~= Seq::<DiagView>::empty());
    }
    while i < lines.len()
        invariant
            lines_view(lines@) == ls,
            ls == spec_lines(source@),
            source@.len() < usize::MAX,
            ls.len() <= source@.len(),
            forall|j: int| 0 <= j < ls.len() ==> (#[trigger] ls[j]).len() <= source@.len(),
            i <= lines@.len(),
            diag_views(out@) == concat_upto(i as int, missing_space_each(ls, doc.nodes@)),
        decreases lines@.len() - i,
    {
        let ghost before = diag_views(out@);
        let line = &lines[i];
        proof {
            assert(line@ == ls[i as int]);
        }
        let indent = indent_exec(line);
        let h = run_from(line, indent, CharClass::Exactly('#'));
        proof {
            assert(trim_start(line@) =~= line@.skip(indent as int));
        }
        let hit = h > 0 && h <= 6 && indent + h < line.len() && line[indent + h] != ' '
            && line[indent + h] != '\t' && line[indent + h] != '#';
        proof {
            if indent + h < line@.len() {
                assert(trim_start(line@)[h as int] == line@[indent + h]);
            }
        }
        if hit && !within_code_block(&doc.nodes, i + 1) {
            let column = indent + h + 1;
            let at = Range::at(i + 1, column);
            let fix = Fix::new(at, " ");
            out.push(finding_of(LintMessage::NoMissingSpaceAtx, Some(at), Some(fix)));
            proof {
                reveal_strlit(" ");
                assert(fix.replacement@ =~= seq![' ']);
            }
        }
        proof {
            assert(diag_views(out@) =~= before + missing_space_finding(
                i + 1,
                ls[i as int],
                in_code_block(doc.nodes@, i + 1),
            ));
        }
        i = i + 1;
    }
    out
}

// ---------------------------------------------------------------------------------------------
// no_multiple_space_blockquote

/// Whether `node` is a blockquote spanning 1-based line `n`.
pub open spec fn quote_covers(node: DocNode, n: int) -> bool {
    node.kind == NodeKind::Blockquote && match node.position {
        Some(p) => p.start_line <= n <= p.end_line,
        None => false,
    }
}

pub open spec fn in_blockquote(nodes: Seq<DocNode>, n: int) -> bool {
    exists|k: int| 0 <= k < nodes.len() && quote_covers(#[trigger] nodes[k], n)
}

fn within_blockquote(nodes: &Vec<DocNode>, n: usize) -> (r: bool)
    ensures
        r == in_blockquote(nodes@, n as int),
{
    let mut k: usize = 0;
    while k < nodes.len()
        invariant
            k <= nodes@.len(),
            forall|m: int| 0 <= m < k ==> !quote_covers(#[trigger] nodes@[m], n as int),
        decreases nodes@.len() - k,
    {
        let node = &nodes[k];
        if node.kind == NodeKind::Blockquote {
            match node.position {
                Some(p) => {
                    if p.start_line <= n && n <= p.end_line {
                        return true;
                    }
                },
                None => {},
            }
        }
        k = k + 1;
    }
    false
}

/// The finding for line `n` of a blockquote: more than one space after its `>`.
pub open spec fn quote_spaces_finding(n: int, line: Seq<char>, quoted: bool) -> Seq<DiagView> {
    let indent = indent_of(line);
    let t = trim_start(line);
    if quoted && t.len() > 0 && t[0] == '>' {
        let gap = count_while(t.skip(1), CharClass::Exactly(' ')) as int;
        if gap > 1 {
            let range = line_range(n, indent + 2, indent + 2 + gap);
            seq![
                finding(
                    LintMessage::NoMultipleSpaceBlockquote,
                    Some(range),
                    Some((range, seq![' '])),
                ),
            ]
        } else {
            Seq::empty()
        }
    } else {
        Seq::empty()
    }
}

pub open spec fn quote_spaces_each(ls: Seq<Seq<char>>, nodes: Seq<DocNode>) -> spec_fn(int) -> Seq<
    DiagView,
> {
    |j: int| quote_spaces_finding(j + 1, ls[j], in_blockquote(nodes, j + 1))
}

/// One finding per blockquote line with several spaces after its `>`.
pub open spec fn spec_no_multiple_space_blockquote(nodes: Seq<DocNode>, source: Seq<char>) -> Seq<
    DiagView,
> {
    let ls = spec_lines(source);
    concat_upto(ls.len() as int, quote_spaces_each(ls, nodes))
}

/// Flags more than one space after a blockquote's `>`; the fix leaves one.
pub fn no_multiple_space_blockquote(doc: &Document, source: &str) -> (r: Vec<Diagnostic>)
    requires
        source@.len() < usize::MAX,
    ensures
        diag_views(r@) == spec_no_multiple_space_blockquote(doc.nodes@, source@),
{
    let lines = source_lines(source);
    let ghost ls = spec_lines(source@);
    proof {
        lemma_source_lines(source@);
    }
    let mut out: Vec<Diagnostic> = Vec::new();
    let mut i: usize = 0;
    proof {
        assert(diag_views(out@) =~= Seq::<DiagView>::empty());
    }
    while i < lines.len()
        invariant
            lines_view(lines@) == ls,
            ls == spec_lines(source@),
            source@.len() < usize::MAX,
            ls.len() <= source@.len(),
            forall|j: int| 0 <= j < ls.len() ==> (#[trigger] ls[j]).len() <= source@.len(),
            i <= lines@.len(),
            diag_views(out@) == concat_upto(i as int, quote_spaces_each(ls, doc.nodes@)),
        decreases lines@.len() - i,
    {
        let ghost before = diag_views(out@);
        let line = &lines[i];
        proof {
            assert(line@ == ls[i as int]);
        }
        let quoted = within_blockquote(&doc.nodes, i + 1);
        let indent = indent_exec(line);
        proof {
            assert(trim_start(line@) =~= line@.skip(indent as int));
        }
        if quoted && indent < line.len() && line[indent] == '>' {
            let gap = run_from(line, indent + 1, CharClass::Exactly(' '));
            proof {
                assert(trim_start(line@).skip(1) =~= line@.skip(indent + 1));
            }
            if gap > 1 {
                let range = Range::single_line(i + 1, indent + 2, indent + 2 + gap);
                let fix = Fix::new(range, " ");
                out.push(finding_of(LintMessage::NoMultipleSpaceBlockquote, Some(range), Some(fix)));
                proof {
                    reveal_strlit(" ");
                    assert(fix.replacement@ =~= seq![' ']);
                }
            }
        }
        proof {
            assert(diag_views(out@) =~= before + quote_spaces_finding(
                i + 1,
                ls[i as int],
                in_blockquote(doc.nodes@, i + 1),
            ));
        }
        i = i + 1;
    }
    out
}

// ---------------------------------------------------------------------------------------------
// hr_style

/// The first source line of node `k`, if it is a horizontal rule with a known position.
pub open spec fn hr_line(nodes: Seq<DocNode>, ls: Seq<Seq<char>>, k: int) -> Option<(int, Seq<char>)> {
    let node = nodes[k];
    if node.kind == NodeKind::HorizontalRule {
        match node.position {
            Some(p) => match line_at(ls, p.start_line as int) {
                Some(line) => Some((p.start_line as int, line)),
                None => None,
            },
            None => None,
        }
    } else {
        None
    }
}

/// The style of the first horizontal rule of `nodes[k..]` whose line is known.
pub open spec fn first_hr_style(nodes: Seq<DocNode>, ls: Seq<Seq<char>>, k: int) -> Option<Seq<char>>
    decreases nodes.len() - k,
{
    if k < 0 || k >= nodes.len() {
        None
    } else {
        match hr_line(nodes, ls, k) {
            Some((n, line)) => Some(trim(line)),
            None => first_hr_style(nodes, ls, k + 1),
        }
    }
}

/// The expected horizontal rule: the `style` option, else the first rule's own style.
pub open spec fn expected_hr(nodes: Seq<DocNode>, ls: Seq<Seq<char>>, config: LintConfig) -> Option<
    Seq<char>,
> {
    match as_text(config.spec_rule_option(RuleId::HrStyle, "style"@)) {
        Some(s) => Some(s),
        None => first_hr_style(nodes, ls, 0),
    }
}

/// The text of an `hr_style` finding.
pub open spec fn hr_text(expected: Seq<char>, found: Seq<char>) -> Seq<char> {
    "horizontal rule `"@ + found + "`, expected `"@ + expected + "` (for consistency)"@
}

pub open spec fn hr_finding(n: int, line: Seq<char>, expected: Seq<char>) -> Seq<DiagView> {
    let found = trim(line);
    if found != expected {
        let range = line_range(n, 1, line.len() + 1int);
        seq![
            DiagView {
                rule: RuleId::HrStyle,
                text: hr_text(expected, found),
                severity: crate::rules::spec_default_severity(RuleId::HrStyle),
                range: Some(range),
                fix: Some((range, expected)),
            },
        ]
    } else {
        Seq::empty()
    }
}

pub open spec fn hr_each(nodes: Seq<DocNode>, ls: Seq<Seq<char>>, expected: Option<Seq<char>>) -> spec_fn(
    int,
) -> Seq<DiagView> {
    |k: int|
        match (hr_line(nodes, ls, k), expected) {
            (Some((n, line)), Some(e)) => hr_finding(n, line, e),
            _ => Seq::empty(),
        }
}

/// One finding per horizontal rule whose text differs from the expected style.
pub open spec fn spec_hr_style(nodes: Seq<DocNode>, source: Seq<char>, config: LintConfig) -> Seq<
    DiagView,
> {
    let ls = spec_lines(source);
    concat_upto(nodes.len() as int, hr_each(nodes, ls, expected_hr(nodes, ls, config)))
}

fn hr_line_exec<'a>(nodes: &Vec<DocNode>, lines: &'a Vec<Vec<char>>, k: usize) -> (r: Option<
    (usize, &'a Vec<char>),
>)
    requires
        k < nodes@.len(),
    ensures
        match r {
            Some((n, line)) => hr_line(nodes@, lines_view(lines@), k as int) == Some(
                (n as int, line@),
            ),
            None => hr_line(nodes@, lines_view(lines@), k as int) is None,
        },
{
    let node = &nodes[k];
    if node.kind != NodeKind::HorizontalRule {
        return None;
    }
    match node.position {
        Some(p) => {
            let n = p.start_line;
            if 1 <= n && n <= lines.len() {
                proof {
                    assert(lines_view(lines@)[n - 1] == lines@[n - 1]@);
                }
                Some((n, &lines[n - 1]))
            } else {
                None
            }
        },
        None => None,
    }
}

/// Flags a horizontal rule written differently from the `style` option (or the first rule);
/// the fix rewrites it.
pub fn hr_style(doc: &Document, source: &str, config: &LintConfig) -> (r: Vec<Diagnostic>)
    requires
        source@.len() < usize::MAX,
    ensures
        diag_views(r@) == spec_hr_style(doc.nodes@, source@, *config),
{
    let nodes = &doc.nodes;
    let lines = source_lines(source);
    let ghost ls = spec_lines(source@);
    proof {
        lemma_source_lines(source@);
    }
    let expected: Option<Vec<char>> = match config.get_str(RuleId::HrStyle, "style") {
        Some(s) => Some(chars_of(s.as_str())),
        None => {
            let mut k: usize = 0;
            let mut found: Option<Vec<char>> = None;
            while k < nodes.len()
                invariant_except_break
                    found is None,
                invariant
                    k <= nodes@.len(),
                    lines_view(lines@) == ls,
                    first_hr_style(nodes@, ls, 0) == first_hr_style(nodes@, ls, k as int),
                ensures
                    match found {
                        Some(f) => first_hr_style(nodes@, ls, 0) == Some(f@),
                        None => first_hr_style(nodes@, ls, 0) is None,
                    },
                decreases nodes@.len() - k,
            {
                match hr_line_exec(nodes, &lines, k) {
                    Some((_, line)) => {
                        found = Some(trim_chars(line));
                        break;
                    },
                    None => {},
                }
                k = k + 1;
            }
            found
        },
    };
    let mut out: Vec<Diagnostic> = Vec::new();
    let mut k: usize = 0;
    proof {
        assert(diag_views(out@) =~= Seq::<DiagView>::empty());
    }
    while k < nodes.len()
        invariant
            k <= nodes@.len(),
            lines_view(lines@) == ls,
            ls == spec_lines(source@),
            source@.len() < usize::MAX,
            forall|j: int| 0 <= j < ls.len() ==> (#[trigger] ls[j]).len() <= source@.len(),
            match expected {
                Some(e) => expected_hr(nodes@, ls, *config) == Some(e@),
                None => expected_hr(nodes@, ls, *config) is None,
            },
            diag_views(out@) == concat_upto(
                k as int,
                hr_each(nodes@, ls, expected_hr(nodes@, ls, *config)),
            ),
        decreases nodes@.len() - k,
    {
        let ghost before = diag_views(out@);
        match (hr_line_exec(nodes, &lines, k), &expected) {
            (Some((n, line)), Some(e)) => {
                let found = trim_chars(line);
                if !chars_eq(&found, e) {
                    let range = Range::single_line(n, 1, line.len() + 1);
                    let message = LintMessage::HrStyle {
                        expected: string_of(e),
                        found: string_of(&found),
                    };
                    let fix = Fix { range, replacement: string_of(e) };
                    out.push(finding_of(message, Some(range), Some(fix)));
                }
                proof {
                    assert(diag_views(out@) =~= before + hr_finding(n as int, line@, e@));
                }
            },
            _ => {
                proof {
                    assert(diag_views(out@) =~= before + Seq::<DiagView>::empty());
                }
            },
        }
        k = k + 1;
    }
    out
}

// ---------------------------------------------------------------------------------------------
// code_fence_style

/// The fence character opening node `k`'s first line, if it is a fenced code block with a
/// known position whose first line starts (after indentation) with a backtick or a tilde.
pub open spec fn fence_char(nodes: Seq<DocNode>, ls: Seq<Seq<char>>, k: int) -> Option<char> {
    let node = nodes[k];
    if node.kind == NodeKind::Code && node.fence {
        match node.position {
            Some(p) => match line_at(ls, p.start_line as int) {
                Some(line) => {
                    let t = trim_start(line);
                    if t.len() > 0 && (t[0] == '`' || t[0] == '~') {
                        Some(t[0])
                    } else {
                        None
                    }
                },
                None => None,
            },
            None => None,
        }
    } else {
        None
    }
}

/// The fence character of the first fenced block of `nodes[k..]` that has one.
pub open spec fn first_fence_char(nodes: Seq<DocNode>, ls: Seq<Seq<char>>, k: int) -> Option<char>
    decreases nodes.len() - k,
{
    if k < 0 || k >= nodes.len() {
        None
    } else {
        match fence_char(nodes, ls, k) {
            Some(c) => Some(c),
            None => first_fence_char(nodes, ls, k + 1),
        }
    }
}

/// The fence character a `style` option names: `backtick` or `tilde`.
pub open spec fn fence_named(s: Seq<char>) -> Option<char> {
    if s == "backtick"@ {
        Some('`')
    } else if s == "tilde"@ {
        Some('~')
    } else {
        None
    }
}

/// The expected fence character: the one the `style` option names, else the first block's.
pub open spec fn expected_fence(nodes: Seq<DocNode>, ls: Seq<Seq<char>>, config: LintConfig) -> Option<char> {
    match as_text(config.spec_rule_option(RuleId::CodeFenceStyle, "style"@)) {
        Some(s) => match fence_named(s) {
            Some(c) => Some(c),
            None => first_fence_char(nodes, ls, 0),
        },
        None => first_fence_char(nodes, ls, 0),
    }
}

pub open spec fn fence_each(nodes: Seq<DocNode>, ls: Seq<Seq<char>>, expected: Option<char>) -> spec_fn(
    int,
) -> Seq<DiagView> {
    |k: int|
        match (fence_char(nodes, ls, k), expected) {
            (Some(c), Some(e)) => if c != e {
                seq![
                    finding(LintMessage::CodeFenceStyle { expected: e }, nodes[k].position, None),
                ]
            } else {
                Seq::empty()
            },
            _ => Seq::empty(),
        }
}

/// One finding per fenced code block whose fence character differs from the expected one.
pub open spec fn spec_code_fence_style(nodes: Seq<DocNode>, source: Seq<char>, config: LintConfig) -> Seq<
    DiagView,
> {
    let ls = spec_lines(source);
    concat_upto(nodes.len() as int, fence_each(nodes, ls, expected_fence(nodes, ls, config)))
}

fn fence_char_exec(nodes: &Vec<DocNode>, lines: &Vec<Vec<char>>, k: usize) -> (r: Option<char>)
    requires
        k < nodes@.len(),
    ensures
        r == fence_char(nodes@, lines_view(lines@), k as int),
{
    let node = &nodes[k];
    if !(node.kind == NodeKind::Code && node.fence) {
        return None;
    }
    match node.position {
        Some(p) => {
            let n = p.start_line;
            if 1 <= n && n <= lines.len() {
                let line = &lines[n - 1];
                proof {
                    assert(lines_view(lines@)[n - 1] == line@);
                }
                let indent = indent_exec(line);
                proof {
                    assert(trim_start(line@) =~= line@.skip(indent as int));
                }
                if indent < line.len() && (line[indent] == '`' || line[indent] == '~') {
                    Some(line[indent])
                } else {
                    None
                }
            } else {
                None
            }
        },
        None => None,
    }
}

/// Flags a fenced code block whose fence character differs from the `style` option's (or the
/// first block's).
pub fn code_fence_style(doc: &Document, source: &str, config: &LintConfig) -> (r: Vec<Diagnostic>)
    ensures
        diag_views(r@) == spec_code_fence_style(doc.nodes@, source@, *config),
{
    let nodes = &doc.nodes;
    let lines = source_lines(source);
    let ghost ls = spec_lines(source@);
    let configured = match config.get_str(RuleId::CodeFenceStyle, "style") {
        Some(s) => if str_eq(s.as_str(), "backtick") {
            Some('`')
        } else if str_eq(s.as_str(), "tilde") {
            Some('~')
        } else {
            None
        },
        None => None,
    };
    let expected = match configured {
        Some(c) => Some(c),
        None => {
            let mut k: usize = 0;
            let mut found: Option<char> = None;
            while k < nodes.len()
                invariant_except_break
                    found is None,
                invariant
                    k <= nodes@.len(),
                    lines_view(lines@) == ls,
                    first_fence_char(nodes@, ls, 0) == first_fence_char(nodes@, ls, k as int),
                ensures
                    found == first_fence_char(nodes@, ls, 0),
                decreases nodes@.len() - k,
            {
                match fence_char_exec(nodes, &lines, k) {
                    Some(c) => {
                        found = Some(c);
                        break;
                    },
                    None => {},
                }
                k = k + 1;
            }
            found
        },
    };
    let mut out: Vec<Diagnostic> = Vec::new();
    let mut k: usize = 0;
    proof {
        assert(diag_views(out@) =~= Seq::<DiagView>::empty());
    }
    while k < nodes.len()
        invariant
            k <= nodes@.len(),
            lines_view(lines@) == ls,
            ls == spec_lines(source@),
            expected == expected_fence(nodes@, ls, *config),
            diag_views(out@) == concat_upto(
                k as int,
                fence_each(nodes@, ls, expected_fence(nodes@, ls, *config)),
            ),
        decreases nodes@.len() - k,
    {
        let ghost before = diag_views(out@);
        match (fence_char_exec(nodes, &lines, k), expected) {
            (Some(c), Some(e)) => {
                if c != e {
                    out.push(
                        finding_of(LintMessage::CodeFenceStyle { expected: e }, nodes[k].position, None),
                    );
                }
            },
            _ => {},
        }
        proof {
            assert(diag_views(out@) =~= before + fence_each(nodes@, ls, expected)(k as int));
        }
        k = k + 1;
    }
    out
}

// ---------------------------------------------------------------------------------------------
// list_indent and list_marker_space

/// The first source line of top-level node `i`, if it is a list item with a known position.
pub open spec fn item_line(top: Seq<DocNode>, ls: Seq<Seq<char>>, i: int) -> Option<(int, Seq<char>)> {
    let node = top[i];
    if node.kind == NodeKind::List {
        match node.position {
            Some(p) => match line_at(ls, p.start_line as int) {
                Some(line) => Some((p.start_line as int, line)),
                None => None,
            },
            None => None,
        }
    } else {
        None
    }
}

fn item_line_exec<'a>(top: &Vec<DocNode>, lines: &'a Vec<Vec<char>>, i: usize) -> (r: Option<
    (usize, &'a Vec<char>),
>)
    requires
        i < top@.len(),
    ensures
        match r {
            Some((n, line)) => item_line(top@, lines_view(lines@), i as int) == Some(
                (n as int, line@),
            ),
            None => item_line(top@, lines_view(lines@), i as int) is None,
        },
{
    let node = &top[i];
    if node.kind != NodeKind::List {
        return None;
    }
    match node.position {
        Some(p) => {
            let n = p.start_line;
            if 1 <= n && n <= lines.len() {
                proof {
                    assert(lines_view(lines@)[n - 1] == lines@[n - 1]@);
                }
                Some((n, &lines[n - 1]))
            } else {
                None
            }
        },
        None => None,
    }
}

/// The index where the run of top-level list items containing index `i` starts: just after
/// the last node before `i` that is not a list item.
pub open spec fn run_start(top: Seq<DocNode>, i: int) -> int
    decreases i,
{
    if i <= 0 {
        0
    } else if top[i - 1].kind != NodeKind::List {
        i
    } else {
        run_start(top, i - 1)
    }
}

/// The indentation of the first item in `top[j..i]` at nesting level `level` whose line is
/// known.
pub open spec fn first_indent_at(
    top: Seq<DocNode>,
    ls: Seq<Seq<char>>,
    j: int,
    i: int,
    level: usize,
) -> Option<int>
    decreases i - j,
{
    if j >= i || j < 0 {
        None
    } else {
        match item_line(top, ls, j) {
            Some((n, line)) => if top[j].depth == level {
                Some(indent_of(line))
            } else {
                first_indent_at(top, ls, j + 1, i, level)
            },
            None => first_indent_at(top, ls, j + 1, i, level),
        }
    }
}

/// The finding for top-level list item `i`: indented differently from the first item at its
/// level in the same list; the fix re-indents it.
pub open spec fn list_indent_finding(top: Seq<DocNode>, ls: Seq<Seq<char>>, i: int) -> Seq<DiagView> {
    match item_line(top, ls, i) {
        Some((n, line)) => {
            let indent = indent_of(line);
            let expected = match first_indent_at(top, ls, run_start(top, i), i, top[i].depth) {
                Some(x) => x,
                None => indent,
            };
            if indent != expected {
                let range = line_range(n, 1, indent + 1);
                seq![
                    finding(
                        LintMessage::ListIndent { expected: expected as usize, found: indent as usize },
                        Some(range),
                        Some((range, spaces(expected as nat))),
                    ),
                ]
            } else {
                Seq::empty()
            }
        },
        None => Seq::empty(),
    }
}

pub open spec fn list_indent_each(top: Seq<DocNode>, ls: Seq<Seq<char>>) -> spec_fn(int) -> Seq<
    DiagView,
> {
    |i: int| list_indent_finding(top, ls, i)
}

/// One finding per top-level list item indented differently from its level's first item.
pub open spec fn spec_list_indent(top: Seq<DocNode>, source: Seq<char>) -> Seq<DiagView> {
    let ls = spec_lines(source);
    concat_upto(top.len() as int, list_indent_each(top, ls))
}

/// Flags a list item indented differently from the first item at the same level of its list;
/// the fix re-indents it.
pub fn list_indent(doc: &Document, source: &str) -> (r: Vec<Diagnostic>)
    requires
        source@.len() < usize::MAX,
    ensures
        diag_views(r@) == spec_list_indent(doc.top@, source@),
{
    let top = &doc.top;
    let lines = source_lines(source);
    let ghost ls = spec_lines(source@);
    proof {
        lemma_source_lines(source@);
    }
    let mut out: Vec<Diagnostic> = Vec::new();
    let mut i: usize = 0;
    proof {
        assert(diag_views(out@) =~= Seq::<DiagView>::empty());
    }
    while i < top.len()
        invariant
            i <= top@.len(),
            lines_view(lines@) == ls,
            ls == spec_lines(source@),
            source@.len() < usize::MAX,
            forall|j: int| 0 <= j < ls.len() ==> (#[trigger] ls[j]).len() <= source@.len(),
            diag_views(out@) == concat_upto(i as int, list_indent_each(top@, ls)),
        decreases top@.len() - i,
    {
        let ghost before = diag_views(out@);
        match item_line_exec(top, &lines, i) {
            Some((n, line)) => {
                let indent = indent_exec(line);
                let level = top[i].depth;
                let mut start = i;
                while start > 0 && top[start - 1].kind == NodeKind::List
                    invariant
                        start <= i,
                        i < top@.len(),
                        run_start(top@, i as int) == run_start(top@, start as int),
                    decreases start,
                {
                    start = start - 1;
                }
                let mut j = start;
                let mut expected: Option<usize> = None;
                while j < i
                    invariant_except_break
                        expected is None,
                    invariant
                        start <= j <= i,
                        i < top@.len(),
                        lines_view(lines@) == ls,
                        forall|q: int| 0 <= q < ls.len() ==> (#[trigger] ls[q]).len() <= source@.len(),
                        source@.len() < usize::MAX,
                        level == top@[i as int].depth,
                        first_indent_at(top@, ls, start as int, i as int, level) == first_indent_at(
                            top@,
                            ls,
                            j as int,
                            i as int,
                            level,
                        ),
                    ensures
                        match expected {
                            Some(x) => first_indent_at(top@, ls, start as int, i as int, level) == Some(x as int),
                            None => first_indent_at(top@, ls, start as int, i as int, level) is None,
                        },
                    decreases i - j,
                {
                    match item_line_exec(top, &lines, j) {
                        Some((_, other)) => {
                            if top[j].depth == level {
                                expected = Some(indent_exec(other));
                                break;
                            }
                        },
                        None => {},
                    }
                    j = j + 1;
                }
                let expected = match expected {
                    Some(x) => x,
                    None => indent,
                };
                if indent != expected {
                    let range = Range::single_line(n, 1, indent + 1);
                    let fix = Fix { range, replacement: spaces_string(expected) };
                    out.push(
                        finding_of(
                            LintMessage::ListIndent { expected, found: indent },
                            Some(range),
                            Some(fix),
                        ),
                    );
                }
                proof {
                    assert(diag_views(out@) =~= before + list_indent_finding(top@, ls, i as int));
                }
            },
            None => {
                proof {
                    assert(diag_views(out@) =~= before + Seq::<DiagView>::empty());
                }
            },
        }
        i = i + 1;
    }
    out
}

/// The length of the list marker opening `line` (after indentation): 1 for `-`, `*` or `+`,
/// or the digits and the `.` or `)` of an ordered marker.
pub open spec fn marker_len(line: Seq<char>) -> Option<int> {
    let t = trim_start(line);
    if t.len() == 0 {
        None
    } else if t[0] == '-' || t[0] == '*' || t[0] == '+' {
        Some(1)
    } else {
        let d = count_while(t, CharClass::AsciiDigit) as int;
        if d == 0 || d >= t.len() {
            None
        } else if t[d] == '.' || t[d] == ')' {
            Some(d + 1)
        } else {
            None
        }
    }
}

/// The finding for top-level list item `i`: a number of spaces after its marker other than
/// `expected`, with text following; the fix sets the spaces.
pub open spec fn marker_space_finding(top: Seq<DocNode>, ls: Seq<Seq<char>>, i: int, expected: nat) -> Seq<
    DiagView,
> {
    match item_line(top, ls, i) {
        Some((n, line)) => match marker_len(line) {
            Some(m) => {
                let indent = indent_of(line);
                let after = line.skip(indent + m);
                let gap = count_while(after, CharClass::Exactly(' ')) as int;
                if gap != expected && trim(after).len() > 0 {
                    let start = indent + m + 1;
                    let range = line_range(n, start, start + gap);
                    seq![
                        finding(
                            LintMessage::ListMarkerSpace { expected: expected as usize, found: gap as usize },
                            Some(range),
                            Some((range, spaces(expected))),
                        ),
                    ]
                } else {
                    Seq::empty()
                }
            },
            None => Seq::empty(),
        },
        None => Seq::empty(),
    }
}

pub open spec fn marker_space_each(top: Seq<DocNode>, ls: Seq<Seq<char>>, expected: nat) -> spec_fn(
    int,
) -> Seq<DiagView> {
    |i: int| marker_space_finding(top, ls, i, expected)
}

/// One finding per top-level list item with the wrong number of spaces after its marker.
pub open spec fn spec_list_marker_space(top: Seq<DocNode>, source: Seq<char>, expected: nat) -> Seq<
    DiagView,
> {
    let ls = spec_lines(source);
    concat_upto(top.len() as int, marker_space_each(top, ls, expected))
}

/// The `spaces` option of `list_marker_space` (default 1).
pub open spec fn marker_spaces_option(config: LintConfig) -> nat {
    match as_count(config.spec_rule_option(RuleId::ListMarkerSpace, "spaces"@)) {
        Some(n) => n as nat,
        None => 1,
    }
}

fn marker_len_exec(line: &Vec<char>, indent: usize) -> (r: Option<usize>)
    requires
        indent == indent_of(line@),
        indent <= line@.len(),
    ensures
        match r {
            Some(m) => marker_len(line@) == Some(m as int) && indent + m <= line@.len(),
            None => marker_len(line@) is None,
        },
{
    proof {
        assert(trim_start(line@) =~= line@.skip(indent as int));
    }
    if indent >= line.len() {
        return None;
    }
    let c = line[indent];
    if c == '-' || c == '*' || c == '+' {
        return Some(1);
    }
    let d = run_from(line, indent, CharClass::AsciiDigit);
    if d == 0 || indent + d >= line.len() {
        return None;
    }
    proof {
        assert(trim_start(line@)[d as int] == line@[indent + d]);
    }
    if line[indent + d] == '.' || line[indent + d] == ')' {
        Some(d + 1)
    } else {
        None
    }
}

/// Flags a list item with a number of spaces after its marker other than the `spaces` option
/// (default 1); the fix sets the spaces.
pub fn list_marker_space(doc: &Document, source: &str, config: &LintConfig) -> (r: Vec<Diagnostic>)
    requires
        source@.len() < usize::MAX,
    ensures
        diag_views(r@) == spec_list_marker_space(doc.top@, source@, marker_spaces_option(*config)),
{
    let expected = match config.get_usize(RuleId::ListMarkerSpace, "spaces") {
        Some(n) => n,
        None => 1,
    };
    let top = &doc.top;
    let lines = source_lines(source);
    let ghost ls = spec_lines(source@);
    proof {
        lemma_source_lines(source@);
    }
    let mut out: Vec<Diagnostic> = Vec::new();
    let mut i: usize = 0;
    proof {
        assert(diag_views(out@) =~= Seq::<DiagView>::empty());
    }
    while i < top.len()
        invariant
            i <= top@.len(),
            lines_view(lines@) == ls,
            ls == spec_lines(source@),
            source@.len() < usize::MAX,
            forall|j: int| 0 <= j < ls.len() ==> (#[trigger] ls[j]).len() <= source@.len(),
            expected as nat == marker_spaces_option(*config),
            diag_views(out@) == concat_upto(i as int, marker_space_each(top@, ls, expected as nat)),
        decreases top@.len() - i,
    {
        let ghost before = diag_views(out@);
        match item_line_exec(top, &lines, i) {
            Some((n, line)) => {
                let indent = indent_exec(line);
                match marker_len_exec(line, indent) {
                    Some(m) => {
                        let gap = run_from(line, indent + m, CharClass::Exactly(' '));
                        let after = crate::text::copy_range(line, indent + m, line.len());
                        proof {
                            assert(after@ =~= line@.skip(indent + m));
                        }
                        if gap != expected && !crate::text::is_blank(&after) {
                            let start = indent + m + 1;
                            let range = Range::single_line(n, start, start + gap);
                            let fix = Fix { range, replacement: spaces_string(expected) };
                            out.push(
                                finding_of(
                                    LintMessage::ListMarkerSpace { expected, found: gap },
                                    Some(range),
                                    Some(fix),
                                ),
                            );
                        }
                    },
                    None => {},
                }
                proof {
                    assert(diag_views(out@) =~= before + marker_space_finding(
                        top@,
                        ls,
                        i as int,
                        expected as nat,
                    ));
                }
            },
            None => {
                proof {
                    assert(diag_views(out@) =~= before + Seq::<DiagView>::empty());
                }
            },
        }
        i = i + 1;
    }
    out
}


// ---------------------------------------------------------------------------------------------
// ul_style

/// The bullet of top-level list item `i`: its line, the bullet's column and the bullet (`-`,
/// `*` or `+`) after the item's indentation. An ordered item has none.
pub open spec fn item_bullet(top: Seq<DocNode>, ls: Seq<Seq<char>>, i: int) -> Option<(int, int, char)> {
    match item_line(top, ls, i) {
        Some((n, line)) => {
            let ind = indent_of(line);
            if ind < line.len() && (line[ind] == '-' || line[ind] == '*' || line[ind] == '+') {
                Some((n, ind + 1, line[ind]))
            } else {
                None
            }
        },
        None => None,
    }
}

/// The bullet of the first bulleted item of `top[i..]`.
pub open spec fn first_bullet(top: Seq<DocNode>, ls: Seq<Seq<char>>, i: int) -> Option<char>
    decreases top.len() - i,
{
    if i < 0 || i >= top.len() {
        None
    } else {
        match item_bullet(top, ls, i) {
            Some((_, _, m)) => Some(m),
            None => first_bullet(top, ls, i + 1),
        }
    }
}

/// The bullet a `style` option names: `dash`, `asterisk` or `plus`.
pub open spec fn bullet_style(style: Seq<char>) -> Option<char> {
    if style == "dash"@ {
        Some('-')
    } else if style == "asterisk"@ {
        Some('*')
    } else if style == "plus"@ {
        Some('+')
    } else {
        None
    }
}

/// The expected bullet: the `style` option's, else the first bulleted item's.
pub open spec fn expected_bullet(top: Seq<DocNode>, ls: Seq<Seq<char>>, config: LintConfig) -> Option<char> {
    match as_text(config.spec_rule_option(RuleId::UlStyle, "style"@)) {
        Some(t) => match bullet_style(t) {
            Some(m) => Some(m),
            None => first_bullet(top, ls, 0),
        },
        None => first_bullet(top, ls, 0),
    }
}

pub open spec fn bullet_each(top: Seq<DocNode>, ls: Seq<Seq<char>>, expected: Option<char>) -> spec_fn(int) -> Seq<DiagView> {
    |i: int|
        match (item_bullet(top, ls, i), expected) {
            (Some((n, c, found)), Some(e)) => if found != e {
                seq![
                    finding(
                        LintMessage::UlStyle { expected: e, found },
                        Some(line_range(n, c, c + 1)),
                        Some((line_range(n, c, c + 1), seq![e])),
                    ),
                ]
            } else {
                Seq::empty()
            },
            _ => Seq::empty(),
        }
}

/// One finding per top-level unordered list item whose bullet differs from the expected one.
pub open spec fn spec_ul_style(top: Seq<DocNode>, source: Seq<char>, config: LintConfig) -> Seq<DiagView> {
    let ls = spec_lines(source);
    concat_upto(top.len() as int, bullet_each(top, ls, expected_bullet(top, ls, config)))
}

fn item_bullet_exec(top: &Vec<DocNode>, lines: &Vec<Vec<char>>, i: usize) -> (r: Option<(usize, usize, char)>)
    requires
        i < top@.len(),
        forall|j: int| 0 <= j < lines@.len() ==> (#[trigger] lines@[j])@.len() < usize::MAX,
    ensures
        match r {
            Some((n, c, m)) => item_bullet(top@, lines_view(lines@), i as int) == Some((n as int, c as int, m)),
            None => item_bullet(top@, lines_view(lines@), i as int) is None,
        },
        r matches Some((n, c, m)) ==> c < usize::MAX,
{
    match item_line_exec(top, lines, i) {
        Some((n, line)) => {
            proof {
                assert(lines@[n - 1]@ == line@);
            }
            let ind = indent_exec(line);
            if ind < line.len() && (line[ind] == '-' || line[ind] == '*' || line[ind] == '+') {
                Some((n, ind + 1, line[ind]))
            } else {
                None
            }
        },
        None => None,
    }
}

/// Flags a top-level unordered list item whose bullet (`-`, `*` or `+`) is another than the
/// `style` option names, or than the first bulleted item's; the fix swaps the bullet.
pub fn ul_style(doc: &Document, source: &str, config: &LintConfig) -> (r: Vec<Diagnostic>)
    requires
        source@.len() < usize::MAX,
    ensures
        diag_views(r@) == spec_ul_style(doc.top@, source@, *config),
{
    let top = &doc.top;
    let lines = source_lines(source);
    let ghost ls = spec_lines(source@);
    proof {
        lemma_source_lines(source@);
        assert forall|j: int| 0 <= j < lines@.len() implies (#[trigger] lines@[j])@.len() < usize::MAX by {
            assert(lines_view(lines@)[j] == lines@[j]@);
        }
    }
    let configured = match config.get_str(RuleId::UlStyle, "style") {
        Some(t) => if str_eq(t.as_str(), "dash") {
            Some('-')
        } else if str_eq(t.as_str(), "asterisk") {
            Some('*')
        } else if str_eq(t.as_str(), "plus") {
            Some('+')
        } else {
            None
        },
        None => None,
    };
    let expected: Option<char> = match configured {
        Some(m) => Some(m),
        None => {
            let mut i: usize = 0;
            let mut found: Option<char> = None;
            while i < top.len()
                invariant_except_break
                    found is None,
                invariant
                    i <= top@.len(),
                    lines_view(lines@) == ls,
                    forall|j: int| 0 <= j < lines@.len() ==> (#[trigger] lines@[j])@.len() < usize::MAX,
                    first_bullet(top@, ls, 0) == first_bullet(top@, ls, i as int),
                ensures
                    found == first_bullet(top@, ls, 0),
                decreases top@.len() - i,
            {
                match item_bullet_exec(top, &lines, i) {
                    Some((_, _, m)) => {
                        found = Some(m);
                        break;
                    },
                    None => {},
                }
                i = i + 1;
            }
            found
        },
    };
    proof {
        assert(expected == expected_bullet(top@, ls, *config));
    }
    let mut out: Vec<Diagnostic> = Vec::new();
    let mut i: usize = 0;
    proof {
        assert(diag_views(out@) =~= Seq::<DiagView>::empty());
    }
    while i < top.len()
        invariant
            i <= top@.len(),
            lines_view(lines@) == ls,
            ls == spec_lines(source@),
            forall|j: int| 0 <= j < lines@.len() ==> (#[trigger] lines@[j])@.len() < usize::MAX,
            expected == expected_bullet(top@, ls, *config),
            diag_views(out@) == concat_upto(i as int, bullet_each(top@, ls, expected)),
        decreases top@.len() - i,
    {
        let ghost before = diag_views(out@);
        match (item_bullet_exec(top, &lines, i), expected) {
            (Some((n, c, found)), Some(e)) => {
                if found != e {
                    let range = Range::single_line(n, c, c + 1);
                    let mut rep = String::new();
                    crate::text::push_char(&mut rep, e);
                    let fix = Fix { range, replacement: rep };
                    out.push(finding_of(LintMessage::UlStyle { expected: e, found }, Some(range), Some(fix)));
                    proof {
                        assert(rep@ =~= seq![e]);
                    }
                }
                proof {
                    assert(diag_views(out@) =~= before + bullet_each(top@, ls, expected)(i as int));
                }
            },
            _ => {
                proof {
                    assert(diag_views(out@) =~= before + bullet_each(top@, ls, expected)(i as int));
                }
            },
        }
        i = i + 1;
    }
    out
}

} // verus!
