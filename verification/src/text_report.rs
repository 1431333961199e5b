//! The human-readable report for one file: findings grouped by severity (errors, then warnings,
//! then info), each group in a box-drawn frame, each finding with a snippet of its source line
//! and a caret underline, then a one-line summary.
//!
//! The report is a list of styled segments; the caller applies the styles and writes the text.
use crate::message::NodeSelector;
use crate::report_item::{item_help, item_selector, ReportItem};
use crate::text::{chars_of, dec, fmt_usize, lines_view, spec_lines, split_lines, string_of, utf8_width, utf8_width_exec};
use crate::{Range, Severity};
use vstd::prelude::*;

verus! {

/// The colors the report uses.
#[derive(Debug, Clone, Copy, PartialEq, Eq, Structural)]
pub enum Color {
    Plain,
    BrightRed,
    BrightYellow,
    Blue,
    BrightGreen,
    BrightBlue,
    BrightCyan,
}

/// How a segment is shown.
#[derive(Debug, Clone, Copy, PartialEq, Eq, Structural)]
pub struct Style {
    pub color: Color,
    pub bold: bool,
    pub dimmed: bool,
}

/// A piece of report text and its style.
#[derive(Debug, Clone)]
pub struct Segment {
    pub text: String,
    pub style: Style,
}

/// A segment as values.
pub type SegView = (Seq<char>, Style);

/// The segments of a list, as values.
pub open spec fn segs(v: Seq<Segment>) -> Seq<SegView> {
    v.map_values(|s: Segment| (s.text@, s.style))
}

pub open spec fn plain() -> Style {
    Style { color: Color::Plain, bold: false, dimmed: false }
}

pub open spec fn dimmed() -> Style {
    Style { color: Color::Plain, bold: false, dimmed: true }
}

pub open spec fn bold() -> Style {
    Style { color: Color::Plain, bold: true, dimmed: false }
}

/// The color of a severity: bright red for errors, bright yellow for warnings, blue for info.
pub open spec fn severity_color(s: Severity) -> Color {
    match s {
        Severity::Error => Color::BrightRed,
        Severity::Warning => Color::BrightYellow,
        Severity::Info => Color::Blue,
    }
}

pub open spec fn in_color(s: Severity) -> Style {
    Style { color: severity_color(s), bold: false, dimmed: false }
}

pub open spec fn in_bold_color(s: Severity) -> Style {
    Style { color: severity_color(s), bold: true, dimmed: false }
}

/// The order in which severity groups are shown: most severe first.
pub open spec fn shown_severity(k: int) -> Severity {
    if k == 0 {
        Severity::Error
    } else if k == 1 {
        Severity::Warning
    } else {
        Severity::Info
    }
}

/// A group's title.
pub open spec fn title(s: Severity) -> Seq<char> {
    match s {
        Severity::Error => "Errors"@,
        Severity::Warning => "Warnings"@,
        Severity::Info => "Info"@,
    }
}

/// A finding's marker in its group.
pub open spec fn marker(s: Severity) -> Seq<char> {
    match s {
        Severity::Error => "[E]"@,
        Severity::Warning => "[W]"@,
        Severity::Info => "[I]"@,
    }
}

/// `n` copies of `c`.
pub open spec fn repeat(c: char, n: nat) -> Seq<char> {
    Seq::new(n, |i: int| c)
}

/// The bytes `s` takes in UTF-8.
pub open spec fn utf8_len(s: Seq<char>) -> nat
    decreases s.len(),
{
    if s.len() == 0 {
        0
    } else {
        utf8_len(s.drop_last()) + utf8_width(s.last())
    }
}

/// `n`, or `usize::MAX` where `n` is larger.
pub open spec fn capped(n: nat) -> nat {
    if n > usize::MAX {
        usize::MAX as nat
    } else {
        n
    }
}

/// `a - b`, or 0 where `b` is larger.
pub open spec fn sub_floor(a: nat, b: nat) -> nat {
    if a >= b {
        (a - b) as nat
    } else {
        0
    }
}

/// The gutter bar of a group.
pub open spec fn bar(s: Severity) -> SegView {
    ("│"@, in_color(s))
}

/// A line that holds only the gutter bar.
pub open spec fn bar_line(s: Severity) -> Seq<SegView> {
    seq![bar(s), ("\n"@, plain())]
}

/// The snippet under a finding with a position: its source line, numbered, and a caret
/// underline from its start column to its end column (to the end of the line where the finding
/// spans lines; at least one caret). Nothing where the line is not in the source.
pub open spec fn snippet(lines: Seq<Seq<char>>, r: Range, s: Severity) -> Seq<SegView> {
    let idx = sub_floor(r.start_line as nat, 1);
    if idx >= lines.len() {
        Seq::empty()
    } else {
        let line = lines[idx as int];
        let col_start = sub_floor(r.start_column as nat, 1);
        let col_end = if r.end_line == r.start_line {
            sub_floor(r.end_column as nat, 1)
        } else {
            capped(utf8_len(line))
        };
        let width = if sub_floor(col_end, col_start) == 0 {
            1
        } else {
            sub_floor(col_end, col_start)
        };
        let num = dec(r.start_line as nat);
        seq![
            bar(s),
            ("    "@, plain()),
            (num, dimmed()),
            (" "@, plain()),
            ("│"@, dimmed()),
            (" "@, plain()),
            (line, plain()),
            ("\n"@, plain()),
            bar(s),
            ("    "@, plain()),
            (repeat(' ', num.len()), plain()),
            (" "@, plain()),
            ("│"@, dimmed()),
            (" "@, plain()),
            (repeat(' ', col_start), plain()),
            (repeat('^', width), in_bold_color(s)),
            ("\n"@, plain()),
        ] + bar_line(s)
    }
}

/// Where a finding is: `file:line:column`, or the file alone without a position.
pub open spec fn location(file: Seq<char>, r: Option<Range>) -> Seq<char> {
    match r {
        Some(x) => file + ":"@ + dec(x.start_line as nat) + ":"@ + dec(x.start_column as nat),
        None => file,
    }
}

/// A finding's rule: its id, followed by its mq selector in brackets where it has one.
pub open spec fn rule_label(rule: Seq<char>, sel: Option<NodeSelector>) -> Seq<char> {
    match sel {
        Some(x) => rule + " ("@ + x.spec_text() + ")"@,
        None => rule,
    }
}

/// The first line of a finding: its marker and its text.
pub open spec fn item_head(s: Severity, v: crate::report_item::ItemView) -> Seq<SegView> {
    seq![
        bar(s),
        (" "@, plain()),
        (marker(s), in_bold_color(s)),
        (" "@, plain()),
        (v.text, in_bold_color(v.severity)),
        ("\n"@, plain()),
    ]
}

/// The snippet of a finding with a position, after a bar line; nothing without one.
pub open spec fn item_snippet(s: Severity, r: Option<Range>, lines: Seq<Seq<char>>) -> Seq<SegView> {
    match r {
        Some(x) => bar_line(s) + snippet(lines, x, s),
        None => Seq::empty(),
    }
}

/// The location line of a finding: where it is and which rule found it.
pub open spec fn item_location(s: Severity, item: ReportItem, file: Seq<char>) -> Seq<SegView> {
    seq![
        bar(s),
        ("     "@, plain()),
        (location(file, item@.range), dimmed()),
        (" "@, plain()),
        (rule_label(item@.rule, item_selector(item)), dimmed()),
        ("\n"@, plain()),
    ]
}

/// The help line of a finding that has help.
pub open spec fn item_help_line(s: Severity, help: Option<Seq<char>>) -> Seq<SegView> {
    match help {
        Some(h) => seq![
            bar(s),
            ("       "@, plain()),
            ("help: "@ + h, Style { color: Color::BrightBlue, bold: false, dimmed: false }),
            ("\n"@, plain()),
        ],
        None => Seq::empty(),
    }
}

/// One finding in its group: its marker and text, its snippet, its location and rule, and its
/// help.
pub open spec fn item_block(s: Severity, item: ReportItem, file: Seq<char>, lines: Seq<Seq<char>>) -> Seq<
    SegView,
> {
    item_head(s, item@) + item_snippet(s, item@.range, lines) + item_location(s, item, file)
        + item_help_line(s, item_help(item))
}

/// The items of `items` with severity `s`, in order.
pub open spec fn group(items: Seq<ReportItem>, s: Severity) -> Seq<ReportItem>
    decreases items.len(),
{
    if items.len() == 0 {
        Seq::empty()
    } else if items.last()@.severity == s {
        group(items.drop_last(), s).push(items.last())
    } else {
        group(items.drop_last(), s)
    }
}

/// The findings of a group, a bar line between each two.
pub open spec fn group_body(s: Severity, g: Seq<ReportItem>, file: Seq<char>, lines: Seq<Seq<char>>) -> Seq<
    SegView,
>
    decreases g.len(),
{
    if g.len() == 0 {
        Seq::empty()
    } else {
        group_body(s, g.drop_last(), file, lines) + (if g.len() > 1 {
            bar_line(s)
        } else {
            Seq::empty()
        }) + item_block(s, g.last(), file, lines)
    }
}

/// The top of a group's frame: `┌─ Title`, then a bar line.
pub open spec fn category_head(s: Severity) -> Seq<SegView> {
    seq![("┌─"@, in_bold_color(s)), (" "@, plain()), (title(s), in_bold_color(s)), ("\n"@, plain())]
        + bar_line(s)
}

/// The bottom of a group's frame.
pub open spec fn category_foot(s: Severity) -> Seq<SegView> {
    seq![("└─"@, in_color(s)), ("\n"@, plain())]
}

/// A group in its frame: `┌─ Title`, a bar line, the findings, `└─`.
pub open spec fn category(s: Severity, g: Seq<ReportItem>, file: Seq<char>, lines: Seq<Seq<char>>) -> Seq<
    SegView,
> {
    category_head(s) + group_body(s, g, file, lines) + category_foot(s)
}

/// The non-empty groups from the `k`-th shown severity on, a blank line between each two
/// (`shown` says whether a group came before).
pub open spec fn categories(
    items: Seq<ReportItem>,
    file: Seq<char>,
    lines: Seq<Seq<char>>,
    k: nat,
    shown: bool,
) -> Seq<SegView>
    decreases 3 - k,
{
    if k >= 3 {
        Seq::empty()
    } else {
        let s = shown_severity(k as int);
        let g = group(items, s);
        if g.len() == 0 {
            categories(items, file, lines, k + 1, shown)
        } else {
            (if shown {
                seq![("\n"@, plain())]
            } else {
                Seq::empty()
            }) + category(s, g, file, lines) + categories(items, file, lines, k + 1, true)
        }
    }
}

/// How many findings of one severity, in the summary: `2 errors`, `1 warning`, `3 info`.
pub open spec fn tally(s: Severity, n: nat) -> Seq<SegView> {
    let word = match s {
        Severity::Error => if n == 1 {
            "error"@
        } else {
            "errors"@
        },
        Severity::Warning => if n == 1 {
            "warning"@
        } else {
            "warnings"@
        },
        Severity::Info => "info"@,
    };
    seq![(dec(n) + " "@, plain()), (word, in_color(s))]
}

/// The tallies of the non-empty groups from the `k`-th shown severity on, `, ` between each two.
pub open spec fn tallies(items: Seq<ReportItem>, k: nat, shown: bool) -> Seq<SegView>
    decreases 3 - k,
{
    if k >= 3 {
        Seq::empty()
    } else {
        let s = shown_severity(k as int);
        let n = group(items, s).len();
        if n == 0 {
            tallies(items, k + 1, shown)
        } else {
            (if shown {
                seq![(", "@, plain())]
            } else {
                Seq::empty()
            }) + tally(s, n) + tallies(items, k + 1, true)
        }
    }
}

/// The closing line: `found 3 issues (2 errors, 1 warning).`
pub open spec fn summary(items: Seq<ReportItem>) -> Seq<SegView> {
    let n = items.len();
    seq![("found"@, bold()), (" "@, plain()), (dec(n), bold()), (" issue"@, plain())] + (if n
        == 1 {
        Seq::empty()
    } else {
        seq![("s"@, plain())]
    }) + seq![(" ("@, plain())] + tallies(items, 0, false) + seq![(")."@, plain()), ("\n"@, plain())]
}

/// The report for one file.
pub open spec fn spec_text_report(file: Seq<char>, code: Seq<char>, items: Seq<ReportItem>) -> Seq<
    SegView,
> {
    categories(items, file, spec_lines(code), 0, false) + closing(items)
}

pub(crate) fn emit(out: &mut Vec<Segment>, text: &str, style: Style)
    ensures
        segs(final(out)@) == segs(old(out)@).push((text@, style)),
{
    let seg = Segment { text: String::from_str(text), style };
    out.push(seg);
    proof {
        assert(segs(out@) =~= segs(old(out)@).push((text@, style)));
    }
}

pub(crate) fn emit_string(out: &mut Vec<Segment>, text: String, style: Style)
    ensures
        segs(final(out)@) == segs(old(out)@).push((text@, style)),
{
    let ghost t = text@;
    out.push(Segment { text, style });
    proof {
        assert(segs(out@) =~= segs(old(out)@).push((t, style)));
    }
}

fn append_segs(out: &mut Vec<Segment>, more: &mut Vec<Segment>)
    ensures
        segs(final(out)@) == segs(old(out)@) + segs(old(more)@),
{
    out.append(more);
    proof {
        assert(segs(out@) =~= segs(old(out)@) + segs(old(more)@));
    }
}

pub(crate) fn plain_style() -> (r: Style)
    ensures
        r == plain(),
{
    Style { color: Color::Plain, bold: false, dimmed: false }
}

pub(crate) fn dimmed_style() -> (r: Style)
    ensures
        r == dimmed(),
{
    Style { color: Color::Plain, bold: false, dimmed: true }
}

fn color_of(s: Severity) -> (r: Color)
    ensures
        r == severity_color(s),
{
    match s {
        Severity::Error => Color::BrightRed,
        Severity::Warning => Color::BrightYellow,
        Severity::Info => Color::Blue,
    }
}

fn color_style(s: Severity, bold: bool) -> (r: Style)
    ensures
        r == (if bold {
            in_bold_color(s)
        } else {
            in_color(s)
        }),
{
    Style { color: color_of(s), bold, dimmed: false }
}

fn shown_severity_exec(k: usize) -> (r: Severity)
    ensures
        r == shown_severity(k as int),
{
    if k == 0 {
        Severity::Error
    } else if k == 1 {
        Severity::Warning
    } else {
        Severity::Info
    }
}

fn repeat_exec(c: char, n: usize) -> (r: String)
    ensures
        r@ == repeat(c, n as nat),
{
    let mut r = String::new();
    let mut i: usize = 0;
    while i < n
        invariant
            i <= n,
            r@ == repeat(c, i as nat),
        decreases n - i,
    {
        crate::text::push_char(&mut r, c);
        i = i + 1;
        proof {
            assert(r@ =~= repeat(c, i as nat));
        }
    }
    r
}

/// The UTF-8 length of `line`, capped at `usize::MAX`.
fn utf8_len_capped(line: &Vec<char>) -> (r: usize)
    ensures
        r == capped(utf8_len(line@)),
{
    let mut acc: usize = 0;
    let mut i: usize = 0;
    while i < line.len()
        invariant
            i <= line@.len(),
            acc == capped(utf8_len(line@.take(i as int))),
        decreases line@.len() - i,
    {
        let w = utf8_width_exec(line[i]);
        proof {
            assert(line@.take(i + 1).drop_last() =~= line@.take(i as int));
        }
        if acc > usize::MAX - w {
            acc = usize::MAX;
        } else {
            acc = acc + w;
        }
        i = i + 1;
    }
    proof {
        assert(line@.take(line@.len() as int) =~= line@);
    }
    acc
}

fn bar_exec(out: &mut Vec<Segment>, s: Severity)
    ensures
        segs(final(out)@) == segs(old(out)@).push(bar(s)),
{
    emit(out, "│", color_style(s, false));
}

fn bar_line_exec(out: &mut Vec<Segment>, s: Severity)
    ensures
        segs(final(out)@) == segs(old(out)@) + bar_line(s),
{
    bar_exec(out, s);
    emit(out, "\n", plain_style());
    proof {
        assert(segs(out@) =~= segs(old(out)@) + bar_line(s));
    }
}

fn sub_floor_exec(a: usize, b: usize) -> (r: usize)
    ensures
        r == sub_floor(a as nat, b as nat),
{
    if a >= b {
        a - b
    } else {
        0
    }
}

fn snippet_exec(out: &mut Vec<Segment>, lines: &Vec<Vec<char>>, r: Range, s: Severity)
    ensures
        segs(final(out)@) == segs(old(out)@) + snippet(lines_view(lines@), r, s),
{
    let idx = sub_floor_exec(r.start_line, 1);
    if idx >= lines.len() {
        proof {
            assert(segs(out@) =~= segs(old(out)@) + snippet(lines_view(lines@), r, s));
        }
        return;
    }
    let line = &lines[idx];
    let col_start = sub_floor_exec(r.start_column, 1);
    let col_end = if r.end_line == r.start_line {
        sub_floor_exec(r.end_column, 1)
    } else {
        utf8_len_capped(line)
    };
    let d = sub_floor_exec(col_end, col_start);
    let width: usize = if d == 0 {
        1
    } else {
        d
    };
    let num = fmt_usize(r.start_line);
    let num_chars = chars_of(num.as_str());
    let ghost start = segs(out@);
    bar_exec(out, s);
    emit(out, "    ", plain_style());
    emit(out, num.as_str(), dimmed_style());
    emit(out, " ", plain_style());
    emit(out, "│", dimmed_style());
    emit(out, " ", plain_style());
    emit_string(out, string_of(line), plain_style());
    emit(out, "\n", plain_style());
    bar_exec(out, s);
    emit(out, "    ", plain_style());
    emit_string(out, repeat_exec(' ', num_chars.len()), plain_style());
    emit(out, " ", plain_style());
    emit(out, "│", dimmed_style());
    emit(out, " ", plain_style());
    emit_string(out, repeat_exec(' ', col_start), plain_style());
    emit_string(out, repeat_exec('^', width), color_style(s, true));
    emit(out, "\n", plain_style());
    bar_line_exec(out, s);
    proof {
        assert(lines_view(lines@)[idx as int] == line@);
        assert(segs(out@) =~= start + snippet(lines_view(lines@), r, s));
    }
}

fn location_exec(file: &str, r: Option<Range>) -> (l: String)
    ensures
        l@ == location(file@, r),
{
    match r {
        Some(x) => {
            let mut l = String::from_str(file);
            l.append(":");
            l.append(fmt_usize(x.start_line).as_str());
            l.append(":");
            l.append(fmt_usize(x.start_column).as_str());
            proof {
                assert(l@ =~= location(file@, r));
            }
            l
        },
        None => String::from_str(file),
    }
}

fn rule_label_exec(item: &ReportItem) -> (l: String)
    ensures
        l@ == rule_label(item@.rule, item_selector(*item)),
{
    let mut l = String::from_str(item.rule_id());
    match item.selector() {
        Some(x) => {
            l.append(" (");
            l.append(x.text().as_str());
            l.append(")");
            proof {
                assert(l@ =~= rule_label(item@.rule, item_selector(*item)));
            }
        },
        None => {},
    }
    l
}

fn item_head_exec(out: &mut Vec<Segment>, s: Severity, item: &ReportItem)
    ensures
        segs(final(out)@) == segs(old(out)@) + item_head(s, item@),
{
    bar_exec(out, s);
    emit(out, " ", plain_style());
    match s {
        Severity::Error => emit(out, "[E]", color_style(s, true)),
        Severity::Warning => emit(out, "[W]", color_style(s, true)),
        Severity::Info => emit(out, "[I]", color_style(s, true)),
    }
    emit(out, " ", plain_style());
    emit_string(out, item.text(), color_style(item.severity(), true));
    emit(out, "\n", plain_style());
    proof {
        assert(segs(out@) =~= segs(old(out)@) + item_head(s, item@));
    }
}

fn item_snippet_exec(out: &mut Vec<Segment>, s: Severity, r: Option<Range>, lines: &Vec<Vec<char>>)
    ensures
        segs(final(out)@) == segs(old(out)@) + item_snippet(s, r, lines_view(lines@)),
{
    match r {
        Some(x) => {
            bar_line_exec(out, s);
            snippet_exec(out, lines, x, s);
            proof {
                assert(segs(out@) =~= segs(old(out)@) + item_snippet(s, r, lines_view(lines@)));
            }
        },
        None => {
            proof {
                assert(segs(out@) =~= segs(old(out)@) + item_snippet(s, r, lines_view(lines@)));
            }
        },
    }
}

fn item_location_exec(out: &mut Vec<Segment>, s: Severity, item: &ReportItem, file: &str)
    ensures
        segs(final(out)@) == segs(old(out)@) + item_location(s, *item, file@),
{
    bar_exec(out, s);
    emit(out, "     ", plain_style());
    emit_string(out, location_exec(file, item.range()), dimmed_style());
    emit(out, " ", plain_style());
    emit_string(out, rule_label_exec(item), dimmed_style());
    emit(out, "\n", plain_style());
    proof {
        assert(segs(out@) =~= segs(old(out)@) + item_location(s, *item, file@));
    }
}

fn item_help_exec(out: &mut Vec<Segment>, s: Severity, item: &ReportItem)
    ensures
        segs(final(out)@) == segs(old(out)@) + item_help_line(s, item_help(*item)),
{
    match item.help() {
        Some(h) => {
            bar_exec(out, s);
            emit(out, "       ", plain_style());
            let mut t = String::from_str("help: ");
            t.append(h.as_str());
            emit_string(out, t, Style { color: Color::BrightBlue, bold: false, dimmed: false });
            emit(out, "\n", plain_style());
        },
        None => {},
    }
    proof {
        assert(segs(out@) =~= segs(old(out)@) + item_help_line(s, item_help(*item)));
    }
}

fn item_block_exec(
    out: &mut Vec<Segment>,
    s: Severity,
    item: &ReportItem,
    file: &str,
    lines: &Vec<Vec<char>>,
)
    ensures
        segs(final(out)@) == segs(old(out)@) + item_block(s, *item, file@, lines_view(lines@)),
{
    item_head_exec(out, s, item);
    item_snippet_exec(out, s, item.range(), lines);
    item_location_exec(out, s, item, file);
    item_help_exec(out, s, item);
    proof {
        assert(segs(out@) =~= segs(old(out)@) + item_block(s, *item, file@, lines_view(lines@)));
    }
}

fn category_head_exec(out: &mut Vec<Segment>, s: Severity)
    ensures
        segs(final(out)@) == segs(old(out)@) + category_head(s),
{
    emit(out, "┌─", color_style(s, true));
    emit(out, " ", plain_style());
    match s {
        Severity::Error => emit(out, "Errors", color_style(s, true)),
        Severity::Warning => emit(out, "Warnings", color_style(s, true)),
        Severity::Info => emit(out, "Info", color_style(s, true)),
    }
    emit(out, "\n", plain_style());
    bar_line_exec(out, s);
    proof {
        assert(segs(out@) =~= segs(old(out)@) + category_head(s));
    }
}

fn category_foot_exec(out: &mut Vec<Segment>, s: Severity)
    ensures
        segs(final(out)@) == segs(old(out)@) + category_foot(s),
{
    emit(out, "└─", color_style(s, false));
    emit(out, "\n", plain_style());
    proof {
        assert(segs(out@) =~= segs(old(out)@) + category_foot(s));
    }
}

/// The findings of severity `s`, rendered, and how many there are.
fn group_exec(items: &Vec<ReportItem>, s: Severity, file: &str, lines: &Vec<Vec<char>>) -> (r: (
    Vec<Segment>,
    usize,
))
    ensures
        segs(r.0@) == group_body(s, group(items@, s), file@, lines_view(lines@)),
        r.1 == group(items@, s).len(),
{
    let mut body: Vec<Segment> = Vec::new();
    let mut n: usize = 0;
    let mut i: usize = 0;
    proof {
        assert(segs(body@) =~= Seq::<SegView>::empty());
    }
    while i < items.len()
        invariant
            i <= items@.len(),
            n <= i,
            n == group(items@.take(i as int), s).len(),
            segs(body@) == group_body(s, group(items@.take(i as int), s), file@, lines_view(lines@)),
        decreases items@.len() - i,
    {
        let ghost g = group(items@.take(i as int), s);
        proof {
            assert(items@.take(i + 1).drop_last() =~= items@.take(i as int));
            assert(items@.take(i + 1).last() == items@[i as int]);
        }
        if items[i].severity() == s {
            if n > 0 {
                bar_line_exec(&mut body, s);
            }
            item_block_exec(&mut body, s, &items[i], file, lines);
            proof {
                let g2 = g.push(items@[i as int]);
                assert(g2.drop_last() =~= g);
                assert(group(items@.take(i + 1), s) == g2);
                assert(segs(body@) =~= group_body(s, g2, file@, lines_view(lines@)));
            }
            n = n + 1;
        }
        i = i + 1;
    }
    proof {
        assert(items@.take(items@.len() as int) =~= items@);
    }
    (body, n)
}

fn tally_exec(out: &mut Vec<Segment>, s: Severity, n: usize)
    ensures
        segs(final(out)@) == segs(old(out)@) + tally(s, n as nat),
{
    let mut t = fmt_usize(n);
    t.append(" ");
    emit_string(out, t, plain_style());
    let word = match s {
        Severity::Error => if n == 1 {
            "error"
        } else {
            "errors"
        },
        Severity::Warning => if n == 1 {
            "warning"
        } else {
            "warnings"
        },
        Severity::Info => "info",
    };
    emit(out, word, color_style(s, false));
    proof {
        assert(segs(out@) =~= segs(old(out)@) + tally(s, n as nat));
    }
}

/// The framed groups, and the tallies of the summary.
fn categories_exec(items: &Vec<ReportItem>, file: &str, lines: &Vec<Vec<char>>) -> (r: (
    Vec<Segment>,
    Vec<Segment>,
))
    ensures
        segs(r.0@) == categories(items@, file@, lines_view(lines@), 0, false),
        segs(r.1@) == tallies(items@, 0, false),
{
    let ghost ls = lines_view(lines@);
    let mut out: Vec<Segment> = Vec::new();
    let mut tl: Vec<Segment> = Vec::new();
    let mut shown = false;
    let mut k: usize = 0;
    proof {
        assert(segs(out@) =~= Seq::<SegView>::empty());
        assert(segs(tl@) =~= Seq::<SegView>::empty());
        assert(segs(out@) + categories(items@, file@, ls, 0, false) =~= categories(
            items@,
            file@,
            ls,
            0,
            false,
        ));
        assert(segs(tl@) + tallies(items@, 0, false) =~= tallies(items@, 0, false));
    }
    while k < 3
        invariant
            k <= 3,
            ls == lines_view(lines@),
            segs(out@) + categories(items@, file@, ls, k as nat, shown) == categories(
                items@,
                file@,
                ls,
                0,
                false,
            ),
            segs(tl@) + tallies(items@, k as nat, shown) == tallies(items@, 0, false),
        decreases 3 - k,
    {
        let s = shown_severity_exec(k);
        let (mut body, n) = group_exec(items, s, file, lines);
        let ghost out0 = segs(out@);
        let ghost tl0 = segs(tl@);
        let ghost g = group(items@, s);
        if n > 0 {
            if shown {
                emit(&mut out, "\n", plain_style());
                emit(&mut tl, ", ", plain_style());
            }
            category_head_exec(&mut out, s);
            append_segs(&mut out, &mut body);
            category_foot_exec(&mut out, s);
            tally_exec(&mut tl, s, n);
            proof {
                let sep: Seq<SegView> = if shown {
                    seq![("\n"@, plain())]
                } else {
                    Seq::empty()
                };
                let sep_t: Seq<SegView> = if shown {
                    seq![(", "@, plain())]
                } else {
                    Seq::empty()
                };
                assert(segs(out@) =~= out0 + (sep + category(s, g, file@, ls)));
                assert(segs(tl@) =~= tl0 + (sep_t + tally(s, g.len())));
                assert(segs(out@) + categories(items@, file@, ls, (k + 1) as nat, true) =~= out0
                    + categories(items@, file@, ls, k as nat, shown));
                assert(segs(tl@) + tallies(items@, (k + 1) as nat, true) =~= tl0 + tallies(
                    items@,
                    k as nat,
                    shown,
                ));
            }
            shown = true;
        }
        k = k + 1;
    }
    proof {
        assert(segs(out@) =~= categories(items@, file@, ls, 0, false));
        assert(segs(tl@) =~= tallies(items@, 0, false));
    }
    (out, tl)
}

/// What follows the groups: a line saying nothing was found, or a blank line and the summary.
pub open spec fn closing(items: Seq<ReportItem>) -> Seq<SegView> {
    if items.len() == 0 {
        seq![
            ("✓"@, Style { color: Color::BrightGreen, bold: true, dimmed: false }),
            ("  "@, plain()),
            ("No content lint issues found."@, Style { color: Color::BrightGreen, bold: false, dimmed: false }),
            ("\n"@, plain()),
        ]
    } else {
        seq![("\n"@, plain())] + summary(items)
    }
}

fn closing_exec(out: &mut Vec<Segment>, items: &Vec<ReportItem>, tl: &mut Vec<Segment>)
    requires
        segs(old(tl)@) == tallies(items@, 0, false),
    ensures
        segs(final(out)@) == segs(old(out)@) + closing(items@),
{
    if items.len() == 0 {
        emit(out, "✓", Style { color: Color::BrightGreen, bold: true, dimmed: false });
        emit(out, "  ", plain_style());
        emit(
            out,
            "No content lint issues found.",
            Style { color: Color::BrightGreen, bold: false, dimmed: false },
        );
        emit(out, "\n", plain_style());
    } else {
        emit(out, "\n", plain_style());
        emit(out, "found", Style { color: Color::Plain, bold: true, dimmed: false });
        emit(out, " ", plain_style());
        emit_string(out, fmt_usize(items.len()), Style { color: Color::Plain, bold: true, dimmed: false });
        emit(out, " issue", plain_style());
        if items.len() != 1 {
            emit(out, "s", plain_style());
        }
        emit(out, " (", plain_style());
        append_segs(out, tl);
        emit(out, ").", plain_style());
        emit(out, "\n", plain_style());
    }
    proof {
        assert(segs(out@) =~= segs(old(out)@) + closing(items@));
    }
}

/// The human-readable report for one file, as styled segments, and whether it reports any
/// finding. `code` is the source the findings were computed against; it supplies the snippets.
pub fn text_report(file: &str, code: &str, items: &Vec<ReportItem>) -> (r: (Vec<Segment>, bool))
    ensures
        segs(r.0@) == spec_text_report(file@, code@, items@),
        r.1 == (items@.len() > 0),
{
    let cs = chars_of(code);
    let lines = split_lines(&cs);
    let (mut out, mut tl) = categories_exec(items, file, &lines);
    closing_exec(&mut out, items, &mut tl);
    (out, items.len() > 0)
}

} // verus!
