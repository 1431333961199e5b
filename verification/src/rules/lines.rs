//! Rules that read the source line by line: trailing whitespace, hard tabs, runs of blank
//! lines, blank lines inside blockquotes, and line length.
use crate::config::{as_count, as_flag, LintConfig};
use crate::doc::{DocNode, Document, NodeKind};
use crate::message::{LintMessage, RuleId};
use crate::rules::{append_all, concat_upto, finding, finding_of, spaces, spaces_string};
use crate::text::{
    chars_of, count_while_rev, is_blank, lemma_lines_bounds, lines_view, run_before, run_from,
    spec_lines, split_lines, starts_with, trim, trim_chars, trim_start, CharClass,
};
use crate::{diag_views, DiagView, Diagnostic, Fix, Range};
use vstd::prelude::*;

verus! {

/// The range from column `start` to column `end` of line `n`.
pub open spec fn line_range(n: int, start: int, end: int) -> Range {
    Range {
        start_line: n as usize,
        start_column: start as usize,
        end_line: n as usize,
        end_column: end as usize,
    }
}

/// The lines of `source` with their lengths bounded by the source's, which fits in `usize`.
pub proof fn lemma_source_lines(source: Seq<char>)
    ensures
        spec_lines(source).len() <= source.len(),
        forall|j: int|
            0 <= j < spec_lines(source).len() ==> (#[trigger] spec_lines(source)[j]).len()
                <= source.len(),
{
    lemma_lines_bounds(source);
}

/// The lines of `source`, as vectors of characters.
pub fn source_lines(source: &str) -> (r: Vec<Vec<char>>)
    ensures
        lines_view(r@) == spec_lines(source@),
{
    let chars = chars_of(source);
    split_lines(&chars)
}

// ---------------------------------------------------------------------------------------------
// no_trailing_spaces

/// The trailing-whitespace finding on line `n`, unless its trailing run of spaces and tabs is
/// empty or exactly `br` long (a Markdown hard line break).
pub open spec fn trailing_spaces_finding(n: int, line: Seq<char>, br: nat) -> Seq<DiagView> {
    let t = count_while_rev(line, CharClass::SpaceOrTab) as int;
    if t == 0 || t == br {
        Seq::empty()
    } else {
        let start = line.len() - t + 1;
        let range = line_range(n, start, start + t);
        seq![finding(LintMessage::NoTrailingSpaces, Some(range), Some((range, Seq::empty())))]
    }
}

pub open spec fn trailing_spaces_each(ls: Seq<Seq<char>>, br: nat) -> spec_fn(int) -> Seq<
    DiagView,
> {
    |j: int| trailing_spaces_finding(j + 1, ls[j], br)
}

/// Every line's trailing-whitespace finding, in line order.
pub open spec fn spec_no_trailing_spaces(source: Seq<char>, br: nat) -> Seq<DiagView> {
    let ls = spec_lines(source);
    concat_upto(ls.len() as int, trailing_spaces_each(ls, br))
}

/// The `br_spaces` option of `no_trailing_spaces` (default 2).
pub open spec fn br_spaces_option(config: LintConfig) -> nat {
    match as_count(config.spec_rule_option(RuleId::NoTrailingSpaces, "br_spaces"@)) {
        Some(n) => n as nat,
        None => 2,
    }
}

fn trailing_spaces_line(n: usize, line: &Vec<char>, br: usize) -> (r: Vec<Diagnostic>)
    requires
        line@.len() < usize::MAX,
    ensures
        diag_views(r@) == trailing_spaces_finding(n as int, line@, br as nat),
{
    let t = run_before(line, line.len(), CharClass::SpaceOrTab);
    proof {
        assert(line@.take(line@.len() as int) =~= line@);
    }
    let mut out: Vec<Diagnostic> = Vec::new();
    if t == 0 || t == br {
        proof {
            assert(diag_views(out@) =~= Seq::<DiagView>::empty());
        }
        return out;
    }
    let start = line.len() - t + 1;
    let range = Range::single_line(n, start, start + t);
    let fix = Fix::new(range, "");
    out.push(finding_of(LintMessage::NoTrailingSpaces, Some(range), Some(fix)));
    proof {
        reveal_strlit("");
        assert(fix.replacement@ =~= Seq::<char>::empty());
        assert(diag_views(out@) =~= trailing_spaces_finding(n as int, line@, br as nat));
    }
    out
}

/// Flags trailing spaces and tabs, except a run exactly as long as the `br_spaces` option (a
/// hard line break); the fix deletes the run.
pub fn no_trailing_spaces(source: &str, config: &LintConfig) -> (r: Vec<Diagnostic>)
    requires
        source@.len() < usize::MAX,
    ensures
        diag_views(r@) == spec_no_trailing_spaces(source@, br_spaces_option(*config)),
{
    let br = match config.get_usize(RuleId::NoTrailingSpaces, "br_spaces") {
        Some(n) => n,
        None => 2,
    };
    let lines = source_lines(source);
    let ghost ls = spec_lines(source@);
    proof {
        lemma_source_lines(source@);
    }
    let mut out: Vec<Diagnostic> = Vec::new();
    let mut i: usize = 0;
    proof {
        assert(diag_views(out@) =~= Seq::<DiagView>::empty());
    }
    while i < lines.len()
        invariant
            lines_view(lines@) == ls,
            ls == spec_lines(source@),
            source@.len() < usize::MAX,
            ls.len() <= source@.len(),
            forall|j: int| 0 <= j < ls.len() ==> (#[trigger] ls[j]).len() <= source@.len(),
            i <= lines@.len(),
            br as nat == br_spaces_option(*config),
            diag_views(out@) == concat_upto(i as int, trailing_spaces_each(ls, br as nat)),
        decreases lines@.len() - i,
    {
        proof {
            assert(lines@[i as int]@ == ls[i as int]);
        }
        let more = trailing_spaces_line(i + 1, &lines[i], br);
        append_all(&mut out, more);
        i = i + 1;
    }
    out
}

// ---------------------------------------------------------------------------------------------
// no_hard_tabs

/// The finding for the character at 0-based `c` of line `n`: one for each hard tab, fixed by
/// `spaces` spaces.
pub open spec fn hard_tab_finding(n: int, line: Seq<char>, c: int, width: nat) -> Seq<DiagView> {
    if line[c] == '\t' {
        let range = line_range(n, c + 1, c + 2);
        seq![finding(LintMessage::NoHardTabs, Some(range), Some((range, spaces(width))))]
    } else {
        Seq::empty()
    }
}

pub open spec fn hard_tab_each_char(n: int, line: Seq<char>, width: nat) -> spec_fn(int) -> Seq<
    DiagView,
> {
    |c: int| hard_tab_finding(n, line, c, width)
}

pub open spec fn hard_tabs_of_line(n: int, line: Seq<char>, width: nat) -> Seq<DiagView> {
    concat_upto(line.len() as int, hard_tab_each_char(n, line, width))
}

pub open spec fn hard_tabs_each(ls: Seq<Seq<char>>, width: nat) -> spec_fn(int) -> Seq<DiagView> {
    |j: int| hard_tabs_of_line(j + 1, ls[j], width)
}

/// One finding per hard tab, in source order.
pub open spec fn spec_no_hard_tabs(source: Seq<char>, width: nat) -> Seq<DiagView> {
    let ls = spec_lines(source);
    concat_upto(ls.len() as int, hard_tabs_each(ls, width))
}

/// The `spaces` option of `no_hard_tabs` (default 4).
pub open spec fn tab_spaces_option(config: LintConfig) -> nat {
    match as_count(config.spec_rule_option(RuleId::NoHardTabs, "spaces"@)) {
        Some(n) => n as nat,
        None => 4,
    }
}

fn hard_tabs_line(n: usize, line: &Vec<char>, width: usize) -> (r: Vec<Diagnostic>)
    requires
        line@.len() < usize::MAX,
    ensures
        diag_views(r@) == hard_tabs_of_line(n as int, line@, width as nat),
{
    let mut out: Vec<Diagnostic> = Vec::new();
    let mut c: usize = 0;
    proof {
        assert(diag_views(out@) =~= Seq::<DiagView>::empty());
    }
    while c < line.len()
        invariant
            line@.len() < usize::MAX,
            c <= line@.len(),
            diag_views(out@) == concat_upto(c as int, hard_tab_each_char(n as int, line@, width as nat)),
        decreases line@.len() - c,
    {
        if line[c] == '\t' {
            let range = Range::single_line(n, c + 1, c + 2);
            let fix = Fix { range, replacement: spaces_string(width) };
            let ghost before = diag_views(out@);
            out.push(finding_of(LintMessage::NoHardTabs, Some(range), Some(fix)));
            proof {
                assert(diag_views(out@) =~= before + hard_tab_finding(
                    n as int,
                    line@,
                    c as int,
                    width as nat,
                ));
            }
        } else {
            proof {
                assert(hard_tab_finding(n as int, line@, c as int, width as nat) =~= Seq::<
                    DiagView,
                >::empty());
                assert(diag_views(out@) =~= diag_views(out@) + Seq::<DiagView>::empty());
            }
        }
        c = c + 1;
    }
    out
}

/// Flags every hard tab; the fix replaces it with the `spaces` option's number of spaces.
pub fn no_hard_tabs(source: &str, config: &LintConfig) -> (r: Vec<Diagnostic>)
    requires
        source@.len() < usize::MAX,
    ensures
        diag_views(r@) == spec_no_hard_tabs(source@, tab_spaces_option(*config)),
{
    let width = match config.get_usize(RuleId::NoHardTabs, "spaces") {
        Some(n) => n,
        None => 4,
    };
    let lines = source_lines(source);
    let ghost ls = spec_lines(source@);
    proof {
        lemma_source_lines(source@);
    }
    let mut out: Vec<Diagnostic> = Vec::new();
    let mut i: usize = 0;
    proof {
        assert(diag_views(out@) =~= Seq::<DiagView>::empty());
    }
    while i < lines.len()
        invariant
            lines_view(lines@) == ls,
            ls == spec_lines(source@),
            source@.len() < usize::MAX,
            ls.len() <= source@.len(),
            forall|j: int| 0 <= j < ls.len() ==> (#[trigger] ls[j]).len() <= source@.len(),
            i <= lines@.len(),
            width as nat == tab_spaces_option(*config),
            diag_views(out@) == concat_upto(i as int, hard_tabs_each(ls, width as nat)),
        decreases lines@.len() - i,
    {
        proof {
            assert(lines@[i as int]@ == ls[i as int]);
        }
        let more = hard_tabs_line(i + 1, &lines[i], width);
        append_all(&mut out, more);
        i = i + 1;
    }
    out
}

// ---------------------------------------------------------------------------------------------
// no_multiple_blanks

/// Whether a line is empty once whitespace is trimmed.
pub open spec fn blank(line: Seq<char>) -> bool {
    trim(line).len() == 0
}

/// The number of blank lines at the start of `ls`.
pub open spec fn blank_run(ls: Seq<Seq<char>>) -> nat
    decreases ls.len(),
{
    if ls.len() > 0 && blank(ls[0]) {
        1 + blank_run(ls.drop_first())
    } else {
        0
    }
}

/// The finding for a run of blank lines starting at 0-based line `i`, if the run is longer
/// than `maximum`: reported at its first line, fixed by deleting the lines beyond `maximum`.
pub open spec fn blank_run_finding(ls: Seq<Seq<char>>, i: int, maximum: nat) -> Seq<DiagView> {
    if blank(ls[i]) && (i == 0 || !blank(ls[i - 1])) && blank_run(ls.skip(i)) > maximum {
        let run = blank_run(ls.skip(i)) as int;
        let range = line_range(i + 1, 1, 1);
        let fix = Range {
            start_line: (i + maximum + 1) as usize,
            start_column: 1,
            end_line: (i + run + 1) as usize,
            end_column: 1,
        };
        seq![
            finding(
                LintMessage::NoMultipleBlanks { count: run as usize },
                Some(range),
                Some((fix, Seq::empty())),
            ),
        ]
    } else {
        Seq::empty()
    }
}

pub open spec fn blank_runs_each(ls: Seq<Seq<char>>, maximum: nat) -> spec_fn(int) -> Seq<
    DiagView,
> {
    |j: int| blank_run_finding(ls, j, maximum)
}

/// One finding per run of more than `maximum` consecutive blank lines, in source order.
pub open spec fn spec_no_multiple_blanks(source: Seq<char>, maximum: nat) -> Seq<DiagView> {
    let ls = spec_lines(source);
    concat_upto(ls.len() as int, blank_runs_each(ls, maximum))
}

/// The `maximum` option of `no_multiple_blanks` (default 1).
pub open spec fn maximum_blanks_option(config: LintConfig) -> nat {
    match as_count(config.spec_rule_option(RuleId::NoMultipleBlanks, "maximum"@)) {
        Some(n) => n as nat,
        None => 1,
    }
}

proof fn lemma_blank_run_bound(ls: Seq<Seq<char>>)
    ensures
        blank_run(ls) <= ls.len(),
    decreases ls.len(),
{
    if ls.len() > 0 && blank(ls[0]) {
        lemma_blank_run_bound(ls.drop_first());
    }
}

/// The number of blank lines from 0-based `i` on.
fn blank_run_from(lines: &Vec<Vec<char>>, i: usize) -> (r: usize)
    requires
        i <= lines@.len(),
    ensures
        r == blank_run(lines_view(lines@).skip(i as int)),
        i + r <= lines@.len(),
{
    let ghost ls = lines_view(lines@);
    let mut j = i;
    while j < lines.len() && is_blank(&lines[j])
        invariant
            i <= j <= lines@.len(),
            ls == lines_view(lines@),
            forall|k: int| i <= k < j ==> blank(#[trigger] ls[k]),
        decreases lines@.len() - j,
    {
        proof {
            assert(ls[j as int] == lines@[j as int]@);
        }
        j = j + 1;
    }
    proof {
        if j < lines@.len() {
            assert(ls[j as int] == lines@[j as int]@);
        }
        lemma_blank_run_exact(ls.skip(i as int), (j - i) as int);
    }
    j - i
}

proof fn lemma_blank_run_exact(ls: Seq<Seq<char>>, n: int)
    requires
        0 <= n <= ls.len(),
        forall|k: int| 0 <= k < n ==> blank(#[trigger] ls[k]),
        n == ls.len() || !blank(ls[n]),
    ensures
        blank_run(ls) == n,
    decreases n,
{
    if n > 0 {
        let t = ls.drop_first();
        assert forall|k: int| 0 <= k < n - 1 implies blank(#[trigger] t[k]) by {
            assert(t[k] == ls[k + 1]);
        }
        if n < ls.len() {
            assert(t[n - 1] == ls[n]);
        }
        lemma_blank_run_exact(t, n - 1);
    }
}

/// Flags each run of more than the `maximum` option's number of consecutive blank lines; the
/// fix deletes the extra lines.
pub fn no_multiple_blanks(source: &str, config: &LintConfig) -> (r: Vec<Diagnostic>)
    requires
        source@.len() < usize::MAX,
    ensures
        diag_views(r@) == spec_no_multiple_blanks(source@, maximum_blanks_option(*config)),
{
    let maximum = match config.get_usize(RuleId::NoMultipleBlanks, "maximum") {
        Some(n) => n,
        None => 1,
    };
    let lines = source_lines(source);
    let ghost ls = spec_lines(source@);
    proof {
        lemma_source_lines(source@);
    }
    let mut out: Vec<Diagnostic> = Vec::new();
    let mut i: usize = 0;
    proof {
        assert(diag_views(out@) =~= Seq::<DiagView>::empty());
    }
    while i < lines.len()
        invariant
            lines_view(lines@) == ls,
            ls == spec_lines(source@),
            source@.len() < usize::MAX,
            ls.len() <= source@.len(),
            i <= lines@.len(),
            maximum as nat == maximum_blanks_option(*config),
            diag_views(out@) == concat_upto(i as int, blank_runs_each(ls, maximum as nat)),
        decreases lines@.len() - i,
    {
        let ghost before = diag_views(out@);
        proof {
            assert(lines@[i as int]@ == ls[i as int]);
            if i > 0 {
                assert(lines@[i - 1]@ == ls[i - 1]);
            }
        }
        let here = is_blank(&lines[i]);
        let starts_run = here && (i == 0 || !is_blank(&lines[i - 1]));
        if starts_run {
            let run = blank_run_from(&lines, i);
            if run > maximum {
                let range = Range::single_line(i + 1, 1, 1);
                let fix_range = Range {
                    start_line: i + maximum + 1,
                    start_column: 1,
                    end_line: i + run + 1,
                    end_column: 1,
                };
                let fix = Fix::new(fix_range, "");
                out.push(
                    finding_of(LintMessage::NoMultipleBlanks { count: run }, Some(range), Some(fix)),
                );
                proof {
                    reveal_strlit("");
                    assert(fix.replacement@ =~= Seq::<char>::empty());
                    assert(diag_views(out@) =~= before + blank_run_finding(
                        ls,
                        i as int,
                        maximum as nat,
                    ));
                }
            } else {
                proof {
                    assert(diag_views(out@) =~= before + blank_run_finding(
                        ls,
                        i as int,
                        maximum as nat,
                    ));
                }
            }
        } else {
            proof {
                assert(diag_views(out@) =~= before + blank_run_finding(
                    ls,
                    i as int,
                    maximum as nat,
                ));
            }
        }
        i = i + 1;
    }
    out
}

// ---------------------------------------------------------------------------------------------
// no_blanks_blockquote

/// A line that starts (after indentation) with `>`.
pub open spec fn blockquote_line(line: Seq<char>) -> bool {
    starts_with(trim_start(line), seq!['>'])
}

/// A blank line, or one holding nothing but a `>`.
pub open spec fn blank_or_bare_marker(line: Seq<char>) -> bool {
    trim(line).len() == 0 || trim(line) == seq!['>']
}

/// The finding for 0-based line `i`: a blank (or bare `>`) line between two blockquote lines.
pub open spec fn blank_in_blockquote_finding(ls: Seq<Seq<char>>, i: int) -> Seq<DiagView> {
    if blank_or_bare_marker(ls[i]) && i > 0 && blockquote_line(ls[i - 1]) && i + 1 < ls.len()
        && blockquote_line(ls[i + 1]) {
        seq![
            finding(
                LintMessage::NoBlanksBlockquote,
                Some(line_range(i + 1, 1, ls[i].len() + 1int)),
                None,
            ),
        ]
    } else {
        Seq::empty()
    }
}

pub open spec fn blank_in_blockquote_each(ls: Seq<Seq<char>>) -> spec_fn(int) -> Seq<DiagView> {
    |j: int| blank_in_blockquote_finding(ls, j)
}

/// One finding per blank line inside a blockquote, in source order.
pub open spec fn spec_no_blanks_blockquote(source: Seq<char>) -> Seq<DiagView> {
    let ls = spec_lines(source);
    concat_upto(ls.len() as int, blank_in_blockquote_each(ls))
}

fn is_blockquote_line(line: &Vec<char>) -> (r: bool)
    ensures
        r == blockquote_line(line@),
{
    let a = run_from(line, 0, CharClass::Whitespace);
    proof {
        assert(line@.skip(0) =~= line@);
    }
    let r = a < line.len() && line[a] == '>';
    proof {
        let t = trim_start(line@);
        assert(t =~= line@.skip(a as int));
        if a < line@.len() {
            assert(t[0] == line@[a as int]);
            if line@[a as int] == '>' {
                assert(t.take(1) =~= seq!['>']);
            } else {
                assert(t.take(1)[0] != seq!['>'][0]);
            }
        } else {
            assert(t.len() == 0);
        }
    }
    r
}

fn is_blank_or_bare_marker(line: &Vec<char>) -> (r: bool)
    ensures
        r == blank_or_bare_marker(line@),
{
    let t = trim_chars(line);
    let r = t.len() == 0 || (t.len() == 1 && t[0] == '>');
    proof {
        if t@.len() == 1 {
            if t@[0] == '>' {
                assert(t@ =~= seq!['>']);
            } else {
                assert(t@[0] != seq!['>'][0]);
            }
        }
    }
    r
}

/// Flags a blank line (or a line holding only `>`) between two blockquote lines.
pub fn no_blanks_blockquote(source: &str) -> (r: Vec<Diagnostic>)
    requires
        source@.len() < usize::MAX,
    ensures
        diag_views(r@) == spec_no_blanks_blockquote(source@),
{
    let lines = source_lines(source);
    let ghost ls = spec_lines(source@);
    proof {
        lemma_source_lines(source@);
    }
    let mut out: Vec<Diagnostic> = Vec::new();
    let mut i: usize = 0;
    proof {
        assert(diag_views(out@) =~= Seq::<DiagView>::empty());
    }
    while i < lines.len()
        invariant
            lines_view(lines@) == ls,
            ls == spec_lines(source@),
            source@.len() < usize::MAX,
            ls.len() <= source@.len(),
            forall|j: int| 0 <= j < ls.len() ==> (#[trigger] ls[j]).len() <= source@.len(),
            i <= lines@.len(),
            diag_views(out@) == concat_upto(i as int, blank_in_blockquote_each(ls)),
        decreases lines@.len() - i,
    {
        let ghost before = diag_views(out@);
        proof {
            assert(lines@[i as int]@ == ls[i as int]);
            if i > 0 {
                assert(lines@[i - 1]@ == ls[i - 1]);
            }
            if i + 1 < lines@.len() {
                assert(lines@[i + 1]@ == ls[i + 1]);
            }
        }
        if is_blank_or_bare_marker(&lines[i]) && i > 0 && is_blockquote_line(&lines[i - 1]) && i
            + 1 < lines.len() && is_blockquote_line(&lines[i + 1]) {
            let range = Range::single_line(i + 1, 1, lines[i].len() + 1);
            out.push(finding_of(LintMessage::NoBlanksBlockquote, Some(range), None));
        }
        proof {
            assert(diag_views(out@) =~= before + blank_in_blockquote_finding(ls, i as int));
        }
        i = i + 1;
    }
    out
}

// ---------------------------------------------------------------------------------------------
// line_length

/// Whether `node` is a code block spanning 1-based line `n`.
pub open spec fn code_covers(node: DocNode, n: int) -> bool {
    node.kind == NodeKind::Code && match node.position {
        Some(p) => p.start_line <= n <= p.end_line,
        None => false,
    }
}

/// Whether 1-based line `n` lies within a code block of `nodes`.
pub open spec fn in_code_block(nodes: Seq<DocNode>, n: int) -> bool {
    exists|k: int| 0 <= k < nodes.len() && code_covers(#[trigger] nodes[k], n)
}

/// The over-long-line finding for line `n`, unless it is skipped as code.
pub open spec fn long_line_finding(
    n: int,
    line: Seq<char>,
    limit: nat,
    skip: bool,
) -> Seq<DiagView> {
    if !skip && line.len() > limit {
        seq![
            finding(
                LintMessage::LineLength { length: line.len() as usize, limit: limit as usize },
                Some(line_range(n, limit + 1int, line.len() + 1int)),
                None,
            ),
        ]
    } else {
        Seq::empty()
    }
}

pub open spec fn long_lines_each(
    ls: Seq<Seq<char>>,
    nodes: Seq<DocNode>,
    limit: nat,
    code_blocks: bool,
) -> spec_fn(int) -> Seq<DiagView> {
    |j: int| long_line_finding(j + 1, ls[j], limit, !code_blocks && in_code_block(nodes, j + 1))
}

/// One finding per line longer than `limit` characters, skipping lines inside code blocks
/// unless `code_blocks`.
pub open spec fn spec_line_length(
    source: Seq<char>,
    nodes: Seq<DocNode>,
    limit: nat,
    code_blocks: bool,
) -> Seq<DiagView> {
    let ls = spec_lines(source);
    concat_upto(ls.len() as int, long_lines_each(ls, nodes, limit, code_blocks))
}

/// The line length limit: the `limit` option, else `.editorconfig`'s `max_line_length`, else 80.
pub open spec fn line_limit_option(config: LintConfig) -> nat {
    match as_count(config.spec_rule_option(RuleId::LineLength, "limit"@)) {
        Some(n) => n as nat,
        None => match config.editorconfig_max_line_length {
            Some(n) => n as nat,
            None => 80,
        },
    }
}

/// The `code_blocks` option of `line_length` (default `true`: code lines are checked too).
pub open spec fn code_blocks_option(config: LintConfig) -> bool {
    match as_flag(config.spec_rule_option(RuleId::LineLength, "code_blocks"@)) {
        Some(b) => b,
        None => true,
    }
}

/// Whether 1-based line `n` lies within a code block.
pub fn within_code_block(nodes: &Vec<DocNode>, n: usize) -> (r: bool)
    ensures
        r == in_code_block(nodes@, n as int),
{
    let mut k: usize = 0;
    while k < nodes.len()
        invariant
            k <= nodes@.len(),
            forall|m: int| 0 <= m < k ==> !code_covers(#[trigger] nodes@[m], n as int),
        decreases nodes@.len() - k,
    {
        let node = &nodes[k];
        if node.kind == NodeKind::Code {
            match node.position {
                Some(p) => {
                    if p.start_line <= n && n <= p.end_line {
                        return true;
                    }
                },
                None => {},
            }
        }
        k = k + 1;
    }
    false
}

/// Flags lines longer than the limit; code block lines only when the `code_blocks` option
/// allows it.
pub fn line_length(doc: &Document, source: &str, config: &LintConfig) -> (r: Vec<Diagnostic>)
    requires
        source@.len() < usize::MAX,
    ensures
        diag_views(r@) == spec_line_length(
            source@,
            doc.nodes@,
            line_limit_option(*config),
            code_blocks_option(*config),
        ),
{
    let limit: usize = match config.get_usize(RuleId::LineLength, "limit") {
        Some(n) => n,
        None => match config.editorconfig_max_line_length {
            Some(n) => n,
            None => 80,
        },
    };
    let code_blocks = match config.get_bool(RuleId::LineLength, "code_blocks") {
        Some(b) => b,
        None => true,
    };
    let lines = source_lines(source);
    let ghost ls = spec_lines(source@);
    proof {
        lemma_source_lines(source@);
    }
    let mut out: Vec<Diagnostic> = Vec::new();
    let mut i: usize = 0;
    proof {
        assert(diag_views(out@) =~= Seq::<DiagView>::empty());
    }
    while i < lines.len()
        invariant
            lines_view(lines@) == ls,
            ls == spec_lines(source@),
            source@.len() < usize::MAX,
            ls.len() <= source@.len(),
            forall|j: int| 0 <= j < ls.len() ==> (#[trigger] ls[j]).len() <= source@.len(),
            i <= lines@.len(),
            limit as nat == line_limit_option(*config),
            code_blocks == code_blocks_option(*config),
            diag_views(out@) == concat_upto(
                i as int,
                long_lines_each(ls, doc.nodes@, limit as nat, code_blocks),
            ),
        decreases lines@.len() - i,
    {
        let ghost before = diag_views(out@);
        proof {
            assert(lines@[i as int]@ == ls[i as int]);
        }
        let skip = !code_blocks && within_code_block(&doc.nodes, i + 1);
        let length = lines[i].len();
        if !skip && length > limit {
            let range = Range::single_line(i + 1, limit + 1, length + 1);
            out.push(finding_of(LintMessage::LineLength { length, limit }, Some(range), None));
        }
        proof {
            assert(diag_views(out@) =~= before + long_line_finding(
                i + 1,
                ls[i as int],
                limit as nat,
                !code_blocks && in_code_block(doc.nodes@, i + 1),
            ));
        }
        i = i + 1;
    }
    out
}

} // verus!
