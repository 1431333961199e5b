//! Rules about blocks and inline nodes: blank lines around headings, code blocks, lists and
//! tables; the first line of the document; code block language and style; image alt text and
//! empty links.
use crate::config::{as_text, LintConfig};
use crate::doc::{DocNode, Document, NodeKind};
use crate::message::{LintMessage, RuleId};
use crate::rules::lines::{blank, lemma_source_lines, source_lines};
use crate::rules::{concat_upto, finding, finding_of, spec_default_severity};
use crate::text::{is_blank, lines_view, spec_lines, str_eq, trim};
use crate::{diag_views, DiagView, Diagnostic, Fix, Range};
use vstd::prelude::*;

verus! {

/// The four rules that want a blank line around a block.
#[derive(Debug, Clone, Copy, PartialEq, Eq, Structural)]
pub enum BlankAround {
    Headings,
    Fences,
    Lists,
    Tables,
}

/// The message of a missing blank line `above` (or below) a block.
pub open spec fn blank_message(which: BlankAround, above: bool) -> LintMessage {
    match which {
        BlankAround::Headings => LintMessage::BlanksAroundHeadings { above },
        BlankAround::Fences => LintMessage::BlanksAroundFences { above },
        BlankAround::Lists => LintMessage::BlanksAroundLists { above },
        BlankAround::Tables => LintMessage::BlanksAroundTables { above },
    }
}

fn blank_message_of(which: BlankAround, above: bool) -> (r: LintMessage)
    ensures
        r == blank_message(which, above),
{
    match which {
        BlankAround::Headings => LintMessage::BlanksAroundHeadings { above },
        BlankAround::Fences => LintMessage::BlanksAroundFences { above },
        BlankAround::Lists => LintMessage::BlanksAroundLists { above },
        BlankAround::Tables => LintMessage::BlanksAroundTables { above },
    }
}

/// The insertion point at the start of line `n`.
pub open spec fn point(n: int, column: int) -> Range {
    Range {
        start_line: n as usize,
        start_column: column as usize,
        end_line: n as usize,
        end_column: column as usize,
    }
}

/// The finding for a missing blank line above a block starting on line `start`: reported at
/// the block's start, fixed by inserting a line break there.
pub open spec fn blank_above(which: BlankAround, ls: Seq<Seq<char>>, start: Option<int>) -> Seq<
    DiagView,
> {
    match start {
        Some(s) => if s > 1 && s - 2 < ls.len() && !blank(ls[s - 2]) {
            seq![
                finding(
                    blank_message(which, true),
                    Some(point(s, 1)),
                    Some((point(s, 1), seq!['\n'])),
                ),
            ]
        } else {
            Seq::empty()
        },
        None => Seq::empty(),
    }
}

/// The finding for a missing blank line below a block ending on line `end`: reported at the
/// end of its last line, fixed by inserting a line break after that line.
pub open spec fn blank_below(which: BlankAround, ls: Seq<Seq<char>>, end: Option<int>) -> Seq<
    DiagView,
> {
    match end {
        Some(e) => if 1 <= e < ls.len() && !blank(ls[e]) {
            seq![
                finding(
                    blank_message(which, false),
                    Some(point(e, ls[e - 1].len() + 1int)),
                    Some((point(e + 1, 1), seq!['\n'])),
                ),
            ]
        } else {
            Seq::empty()
        },
        None => Seq::empty(),
    }
}

/// The findings above and below a block spanning lines `start` to `end`.
pub open spec fn blank_around(
    which: BlankAround,
    ls: Seq<Seq<char>>,
    start: Option<int>,
    end: Option<int>,
) -> Seq<DiagView> {
    blank_above(which, ls, start) + blank_below(which, ls, end)
}

/// The blank-line findings for a block spanning lines `start` to `end` (1-based).
fn blank_around_exec(
    which: BlankAround,
    lines: &Vec<Vec<char>>,
    start: Option<usize>,
    end: Option<usize>,
) -> (r: Vec<Diagnostic>)
    requires
        forall|j: int| 0 <= j < lines@.len() ==> (#[trigger] lines@[j])@.len() < usize::MAX,
        lines@.len() < usize::MAX,
    ensures
        diag_views(r@) == blank_around(
            which,
            lines_view(lines@),
            match start {
                Some(s) => Some(s as int),
                None => None,
            },
            match end {
                Some(e) => Some(e as int),
                None => None,
            },
        ),
{
    let ghost ls = lines_view(lines@);
    let mut out: Vec<Diagnostic> = Vec::new();
    match start {
        Some(s) => {
            if s > 1 && s - 2 < lines.len() && !is_blank(&lines[s - 2]) {
                let at = Range::at(s, 1);
                let fix = Fix::new(at, "\n");
                out.push(finding_of(blank_message_of(which, true), Some(at), Some(fix)));
                proof {
                    reveal_strlit("\n");
                    assert(fix.replacement@ =~= seq!['\n']);
                }
            }
            proof {
                if s > 1 && s - 2 < lines@.len() {
                    assert(ls[s - 2] == lines@[s - 2]@);
                }
            }
        },
        None => {},
    }
    let ghost mid = diag_views(out@);
    proof {
        assert(mid =~= blank_above(
            which,
            ls,
            match start {
                Some(s) => Some(s as int),
                None => None,
            },
        ));
    }
    match end {
        Some(e) => {
            if 1 <= e && e < lines.len() && !is_blank(&lines[e]) {
                let at = Range::at(e, lines[e - 1].len() + 1);
                let fix_at = Range::at(e + 1, 1);
                let fix = Fix::new(fix_at, "\n");
                out.push(finding_of(blank_message_of(which, false), Some(at), Some(fix)));
                proof {
                    reveal_strlit("\n");
                    assert(fix.replacement@ =~= seq!['\n']);
                    assert(ls[e - 1] == lines@[e - 1]@);
                }
            }
            proof {
                if e < lines@.len() {
                    assert(ls[e as int] == lines@[e as int]@);
                }
            }
        },
        None => {},
    }
    proof {
        assert(diag_views(out@) =~= mid + blank_below(
            which,
            ls,
            match end {
                Some(e) => Some(e as int),
                None => None,
            },
        ));
    }
    out
}

/// Whether node `n` is one `blanks_around_headings` (or `_fences`) looks at.
pub open spec fn checked_block(which: BlankAround, n: DocNode) -> bool {
    match which {
        BlankAround::Headings => n.kind == NodeKind::Heading,
        BlankAround::Fences => n.kind == NodeKind::Code && n.fence,
        _ => false,
    }
}

pub open spec fn start_of(p: Option<Range>) -> Option<int> {
    match p {
        Some(r) => Some(r.start_line as int),
        None => None,
    }
}

pub open spec fn end_of(p: Option<Range>) -> Option<int> {
    match p {
        Some(r) => Some(r.end_line as int),
        None => None,
    }
}

pub open spec fn node_blank_each(which: BlankAround, nodes: Seq<DocNode>, ls: Seq<Seq<char>>) -> spec_fn(
    int,
) -> Seq<DiagView> {
    |k: int|
        if checked_block(which, nodes[k]) && nodes[k].position is Some {
            blank_around(which, ls, start_of(nodes[k].position), end_of(nodes[k].position))
        } else {
            Seq::empty()
        }
}

/// `blanks_around_headings` or `blanks_around_fences`: for each heading (fenced code block),
/// in document order, the missing blank lines above and below it.
pub open spec fn spec_blanks_around_nodes(
    which: BlankAround,
    nodes: Seq<DocNode>,
    source: Seq<char>,
) -> Seq<DiagView> {
    concat_upto(nodes.len() as int, node_blank_each(which, nodes, spec_lines(source)))
}

/// Flags a heading (`which` is `Headings`) or fenced code block (`Fences`) without a blank
/// line before or after it; the fix inserts one.
pub fn blanks_around_nodes(which: BlankAround, doc: &Document, source: &str) -> (r: Vec<
    Diagnostic,
>)
    requires
        source@.len() < usize::MAX,
        which == BlankAround::Headings || which == BlankAround::Fences,
    ensures
        diag_views(r@) == spec_blanks_around_nodes(which, doc.nodes@, source@),
{
    let nodes = &doc.nodes;
    let lines = source_lines(source);
    let ghost ls = spec_lines(source@);
    proof {
        lemma_source_lines(source@);
    }
    let mut out: Vec<Diagnostic> = Vec::new();
    let mut k: usize = 0;
    proof {
        assert(diag_views(out@) =~= Seq::<DiagView>::empty());
    }
    while k < nodes.len()
        invariant
            k <= nodes@.len(),
            lines_view(lines@) == ls,
            ls == spec_lines(source@),
            source@.len() < usize::MAX,
            ls.len() <= source@.len(),
            forall|j: int| 0 <= j < ls.len() ==> (#[trigger] ls[j]).len() <= source@.len(),
            diag_views(out@) == concat_upto(k as int, node_blank_each(which, nodes@, ls)),
        decreases nodes@.len() - k,
    {
        let ghost before = diag_views(out@);
        let node = &nodes[k];
        let checked = match which {
            BlankAround::Headings => node.kind == NodeKind::Heading,
            BlankAround::Fences => node.kind == NodeKind::Code && node.fence,
            _ => false,
        };
        if checked {
            match node.position {
                Some(p) => {
                    proof {
                        assert forall|j: int| 0 <= j < lines@.len() implies (
                        #[trigger] lines@[j])@.len() < usize::MAX by {
                            assert(lines@[j]@ == ls[j]);
                        }
                    }
                    let more = blank_around_exec(which, &lines, Some(p.start_line), Some(p.end_line));
                    crate::rules::append_all(&mut out, more);
                },
                None => {},
            }
        }
        proof {
            assert(diag_views(out@) =~= before + node_blank_each(which, nodes@, ls)(k as int));
        }
        k = k + 1;
    }
    out
}

/// Whether top-level node `n` belongs to a list (`Lists`) or a table (`Tables`).
pub open spec fn in_block(which: BlankAround, n: DocNode) -> bool {
    match which {
        BlankAround::Lists => n.kind == NodeKind::List,
        BlankAround::Tables => n.kind == NodeKind::TableRow || n.kind == NodeKind::TableCell
            || n.kind == NodeKind::TableAlign,
        _ => false,
    }
}

fn in_block_exec(which: BlankAround, n: &DocNode) -> (r: bool)
    ensures
        r == in_block(which, *n),
{
    match which {
        BlankAround::Lists => n.kind == NodeKind::List,
        BlankAround::Tables => n.kind == NodeKind::TableRow || n.kind == NodeKind::TableCell
            || n.kind == NodeKind::TableAlign,
        _ => false,
    }
}

/// The number of leading nodes of `top` that belong to the block.
pub open spec fn block_run(which: BlankAround, top: Seq<DocNode>) -> nat
    decreases top.len(),
{
    if top.len() > 0 && in_block(which, top[0]) {
        1 + block_run(which, top.drop_first())
    } else {
        0
    }
}

pub open spec fn top_blank_each(which: BlankAround, top: Seq<DocNode>, ls: Seq<Seq<char>>) -> spec_fn(
    int,
) -> Seq<DiagView> {
    |i: int|
        if in_block(which, top[i]) && (i == 0 || !in_block(which, top[i - 1])) {
            let last = i + block_run(which, top.skip(i)) - 1;
            blank_around(which, ls, start_of(top[i].position), end_of(top[last].position))
        } else {
            Seq::empty()
        }
}

/// `blanks_around_lists` or `blanks_around_tables`: for each run of consecutive top-level
/// list item (table) nodes, the missing blank lines above its first and below its last node.
pub open spec fn spec_blanks_around_blocks(
    which: BlankAround,
    top: Seq<DocNode>,
    source: Seq<char>,
) -> Seq<DiagView> {
    concat_upto(top.len() as int, top_blank_each(which, top, spec_lines(source)))
}

proof fn lemma_block_run_exact(which: BlankAround, top: Seq<DocNode>, n: int)
    requires
        0 <= n <= top.len(),
        forall|k: int| 0 <= k < n ==> in_block(which, #[trigger] top[k]),
        n == top.len() || !in_block(which, top[n]),
    ensures
        block_run(which, top) == n,
    decreases n,
{
    if n > 0 {
        let t = top.drop_first();
        assert forall|k: int| 0 <= k < n - 1 implies in_block(which, #[trigger] t[k]) by {
            assert(t[k] == top[k + 1]);
        }
        if n < top.len() {
            assert(t[n - 1] == top[n]);
        }
        lemma_block_run_exact(which, t, n - 1);
    }
}

/// Flags a list (`which` is `Lists`) or table (`Tables`) without a blank line before or after
/// it; the fix inserts one.
pub fn blanks_around_blocks(which: BlankAround, doc: &Document, source: &str) -> (r: Vec<
    Diagnostic,
>)
    requires
        source@.len() < usize::MAX,
        which == BlankAround::Lists || which == BlankAround::Tables,
    ensures
        diag_views(r@) == spec_blanks_around_blocks(which, doc.top@, source@),
{
    let top = &doc.top;
    let lines = source_lines(source);
    let ghost ls = spec_lines(source@);
    proof {
        lemma_source_lines(source@);
        assert forall|j: int| 0 <= j < lines@.len() implies (#[trigger] lines@[j])@.len()
            < usize::MAX by {
            assert(lines@[j]@ == ls[j]);
        }
    }
    let mut out: Vec<Diagnostic> = Vec::new();
    let mut i: usize = 0;
    proof {
        assert(diag_views(out@) =~= Seq::<DiagView>::empty());
    }
    while i < top.len()
        invariant
            i <= top@.len(),
            lines_view(lines@) == ls,
            ls == spec_lines(source@),
            lines@.len() < usize::MAX,
            forall|j: int| 0 <= j < lines@.len() ==> (#[trigger] lines@[j])@.len() < usize::MAX,
            diag_views(out@) == concat_upto(i as int, top_blank_each(which, top@, ls)),
        decreases top@.len() - i,
    {
        let ghost before = diag_views(out@);
        if in_block_exec(which, &top[i]) && (i == 0 || !in_block_exec(which, &top[i - 1])) {
            let mut j = i;
            while j < top.len() && in_block_exec(which, &top[j])
                invariant
                    i <= j <= top@.len(),
                    forall|k: int| i <= k < j ==> in_block(which, #[trigger] top@[k]),
                decreases top@.len() - j,
            {
                j = j + 1;
            }
            proof {
                let t = top@.skip(i as int);
                assert forall|k: int| 0 <= k < j - i implies in_block(which, #[trigger] t[k]) by {
                    assert(t[k] == top@[i + k]);
                }
                if j < top@.len() {
                    assert(t[j - i] == top@[j as int]);
                }
                lemma_block_run_exact(which, t, (j - i) as int);
            }
            let start = match top[i].position {
                Some(p) => Some(p.start_line),
                None => None,
            };
            let end = match top[j - 1].position {
                Some(p) => Some(p.end_line),
                None => None,
            };
            let more = blank_around_exec(which, &lines, start, end);
            crate::rules::append_all(&mut out, more);
        }
        proof {
            assert(diag_views(out@) =~= before + top_blank_each(which, top@, ls)(i as int));
        }
        i = i + 1;
    }
    out
}

// ---------------------------------------------------------------------------------------------
// first_line_heading

/// The index of the first top-level node that is not front matter.
pub open spec fn first_content(top: Seq<DocNode>) -> Option<int>
    decreases top.len(),
{
    if top.len() == 0 {
        None
    } else if top[0].kind != NodeKind::Yaml && top[0].kind != NodeKind::Toml {
        Some(0)
    } else {
        match first_content(top.drop_first()) {
            Some(i) => Some(i + 1),
            None => None,
        }
    }
}

/// A finding when the document's first content is not a level-1 heading, at that content.
pub open spec fn spec_first_line_heading(top: Seq<DocNode>) -> Seq<DiagView> {
    match first_content(top) {
        None => Seq::empty(),
        Some(i) => if top[i].kind == NodeKind::Heading && top[i].depth == 1 {
            Seq::empty()
        } else {
            seq![finding(LintMessage::FirstLineHeading, top[i].position, None)]
        },
    }
}

/// Flags a document whose first content (after any front matter) is not a level-1 heading.
pub fn first_line_heading(doc: &Document) -> (r: Vec<Diagnostic>)
    ensures
        diag_views(r@) == spec_first_line_heading(doc.top@),
{
    let top = &doc.top;
    let mut i: usize = 0;
    proof {
        assert(top@.skip(0) =~= top@);
    }
    while i < top.len() && (top[i].kind == NodeKind::Yaml || top[i].kind == NodeKind::Toml)
        invariant
            i <= top@.len(),
            first_content(top@) == match first_content(top@.skip(i as int)) {
                Some(j) => Some(j + i),
                None => None,
            },
        decreases top@.len() - i,
    {
        proof {
            assert(top@.skip(i as int).drop_first() =~= top@.skip(i + 1));
            assert(top@.skip(i as int)[0] == top@[i as int]);
        }
        i = i + 1;
    }
    let mut out: Vec<Diagnostic> = Vec::new();
    if i < top.len() {
        proof {
            assert(top@.skip(i as int)[0] == top@[i as int]);
        }
        let node = &top[i];
        if !(node.kind == NodeKind::Heading && node.depth == 1) {
            out.push(finding_of(LintMessage::FirstLineHeading, node.position, None));
        }
    } else {
        proof {
            assert(top@.skip(i as int).len() == 0);
        }
    }
    proof {
        assert(diag_views(out@) =~= spec_first_line_heading(top@));
    }
    out
}

// ---------------------------------------------------------------------------------------------
// Rules that look at each node on its own.

/// The text of an `image_missing_alt` finding.
pub open spec fn missing_alt_text(url: Seq<char>) -> Seq<char> {
    "image `"@ + url + "` has no alt text"@
}

/// The finding for node `n` under `rule`, one of the rules that judge each node on its own.
pub open spec fn node_finding(rule: RuleId, n: DocNode, expected_fenced: bool) -> Seq<DiagView> {
    match rule {
        RuleId::FencedCodeLanguage => if n.kind == NodeKind::Code && n.fence && match n.lang {
            Some(l) => l@.len() == 0,
            None => true,
        } {
            seq![finding(LintMessage::FencedCodeLanguage, n.position, None)]
        } else {
            Seq::empty()
        },
        RuleId::NoEmptyLinks => if n.kind == NodeKind::Link && (n.url@.len() == 0 || n.url@
            == seq!['#']) {
            seq![finding(LintMessage::NoEmptyLinks, n.position, None)]
        } else {
            Seq::empty()
        },
        RuleId::ImageMissingAlt => if (n.kind == NodeKind::Image || n.kind == NodeKind::ImageRef)
            && trim(n.alt@).len() == 0 {
            seq![
                DiagView {
                    rule: RuleId::ImageMissingAlt,
                    text: missing_alt_text(
                        if n.kind == NodeKind::Image {
                            n.url@
                        } else {
                            n.ident@
                        },
                    ),
                    severity: spec_default_severity(RuleId::ImageMissingAlt),
                    range: n.position,
                    fix: None,
                },
            ]
        } else {
            Seq::empty()
        },
        RuleId::CodeBlockStyle => if n.kind == NodeKind::Code && n.fence != expected_fenced {
            seq![
                DiagView {
                    rule: RuleId::CodeBlockStyle,
                    text: "code block style should be "@ + (if expected_fenced {
                        "fenced"@
                    } else {
                        "indented"@
                    }) + " (for consistency)"@,
                    severity: spec_default_severity(RuleId::CodeBlockStyle),
                    range: n.position,
                    fix: None,
                },
            ]
        } else {
            Seq::empty()
        },
        _ => Seq::empty(),
    }
}

pub open spec fn node_each(rule: RuleId, nodes: Seq<DocNode>, expected_fenced: bool) -> spec_fn(
    int,
) -> Seq<DiagView> {
    |k: int| node_finding(rule, nodes[k], expected_fenced)
}

/// The findings of a rule that judges each node on its own, in document order.
pub open spec fn spec_node_rule(rule: RuleId, nodes: Seq<DocNode>, expected_fenced: bool) -> Seq<
    DiagView,
> {
    concat_upto(nodes.len() as int, node_each(rule, nodes, expected_fenced))
}

fn node_finding_exec(rule: RuleId, n: &DocNode, expected_fenced: bool) -> (r: Vec<Diagnostic>)
    ensures
        diag_views(r@) == node_finding(rule, *n, expected_fenced),
{
    let mut out: Vec<Diagnostic> = Vec::new();
    match rule {
        RuleId::FencedCodeLanguage => {
            let no_lang = match &n.lang {
                Some(l) => l.as_str().is_empty(),
                None => true,
            };
            if n.kind == NodeKind::Code && n.fence && no_lang {
                out.push(finding_of(LintMessage::FencedCodeLanguage, n.position, None));
            }
        },
        RuleId::NoEmptyLinks => {
            proof {
                reveal_strlit("#");
                assert("#"@ =~= seq!['#']);
            }
            if n.kind == NodeKind::Link && (n.url.as_str().is_empty() || str_eq(n.url.as_str(), "#")) {
                out.push(finding_of(LintMessage::NoEmptyLinks, n.position, None));
            }
        },
        RuleId::ImageMissingAlt => {
            if (n.kind == NodeKind::Image || n.kind == NodeKind::ImageRef) && is_blank(
                &crate::text::chars_of(n.alt.as_str()),
            ) {
                let url = if n.kind == NodeKind::Image {
                    n.url.clone()
                } else {
                    n.ident.clone()
                };
                out.push(finding_of(LintMessage::ImageMissingAlt { url }, n.position, None));
                proof {
                    assert(diag_views(out@) =~= node_finding(rule, *n, expected_fenced));
                }
            }
        },
        RuleId::CodeBlockStyle => {
            if n.kind == NodeKind::Code && n.fence != expected_fenced {
                let expected = if expected_fenced {
                    String::from_str("fenced")
                } else {
                    String::from_str("indented")
                };
                out.push(finding_of(LintMessage::CodeBlockStyle { expected }, n.position, None));
                proof {
                    assert(diag_views(out@) =~= node_finding(rule, *n, expected_fenced));
                }
            }
        },
        _ => {},
    }
    proof {
        assert(diag_views(out@) =~= node_finding(rule, *n, expected_fenced));
    }
    out
}

/// The findings of `fenced_code_language`, `no_empty_links`, `image_missing_alt` or
/// `code_block_style` (with the expected style `expected_fenced`), one node at a time.
pub fn node_rule(rule: RuleId, nodes: &Vec<DocNode>, expected_fenced: bool) -> (r: Vec<Diagnostic>)
    ensures
        diag_views(r@) == spec_node_rule(rule, nodes@, expected_fenced),
{
    let mut out: Vec<Diagnostic> = Vec::new();
    let mut k: usize = 0;
    proof {
        assert(diag_views(out@) =~= Seq::<DiagView>::empty());
    }
    while k < nodes.len()
        invariant
            k <= nodes@.len(),
            diag_views(out@) == concat_upto(k as int, node_each(rule, nodes@, expected_fenced)),
        decreases nodes@.len() - k,
    {
        let more = node_finding_exec(rule, &nodes[k], expected_fenced);
        crate::rules::append_all(&mut out, more);
        k = k + 1;
    }
    out
}

/// Whether the first code block of `nodes` is fenced, if there is a code block.
pub open spec fn first_code_fence(nodes: Seq<DocNode>) -> Option<bool>
    decreases nodes.len(),
{
    if nodes.len() == 0 {
        None
    } else if nodes[0].kind == NodeKind::Code {
        Some(nodes[0].fence)
    } else {
        first_code_fence(nodes.drop_first())
    }
}

/// The expected code block style: `fenced` exactly when the `style` option says `fenced`;
/// with no option, the style of the first code block.
pub open spec fn expected_code_style(nodes: Seq<DocNode>, config: LintConfig) -> bool {
    match as_text(config.spec_rule_option(RuleId::CodeBlockStyle, "style"@)) {
        Some(s) => s == "fenced"@,
        None => match first_code_fence(nodes) {
            Some(f) => f,
            None => false,
        },
    }
}

/// Flags a code block whose style (fenced or indented) differs from the expected one.
pub fn code_block_style(doc: &Document, config: &LintConfig) -> (r: Vec<Diagnostic>)
    ensures
        diag_views(r@) == spec_node_rule(
            RuleId::CodeBlockStyle,
            doc.nodes@,
            expected_code_style(doc.nodes@, *config),
        ),
{
    let nodes = &doc.nodes;
    let expected = match config.get_str(RuleId::CodeBlockStyle, "style") {
        Some(s) => str_eq(s.as_str(), "fenced"),
        None => {
            let mut i: usize = 0;
            proof {
                assert(nodes@.skip(0) =~= nodes@);
            }
            while i < nodes.len() && nodes[i].kind != NodeKind::Code
                invariant
                    i <= nodes@.len(),
                    first_code_fence(nodes@) == first_code_fence(nodes@.skip(i as int)),
                decreases nodes@.len() - i,
            {
                proof {
                    assert(nodes@.skip(i as int).drop_first() =~= nodes@.skip(i + 1));
                    assert(nodes@.skip(i as int)[0] == nodes@[i as int]);
                }
                i = i + 1;
            }
            if i < nodes.len() {
                proof {
                    assert(nodes@.skip(i as int)[0] == nodes@[i as int]);
                }
                nodes[i].fence
            } else {
                false
            }
        },
    };
    node_rule(RuleId::CodeBlockStyle, nodes, expected)
}

} // verus!
