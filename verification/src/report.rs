//! Report layouts: the Markdown table of findings across files, and the severity-grouped text
//! report (as styled segments; the caller applies the colors and writes them), plus the level
//! names SARIF and RDJSON output use.
use crate::report_item::{item_help, ReportItem};
use crate::text::{dec, fmt_usize, chars_of, push_char};
use crate::{Range, Severity};
use vstd::prelude::*;

verus! {

/// A SARIF result `level` for a severity.
pub open spec fn spec_sarif_level(s: Severity) -> Seq<char> {
    match s {
        Severity::Error => "error"@,
        Severity::Warning => "warning"@,
        Severity::Info => "note"@,
    }
}

/// A SARIF result `level` for a severity: `error`, `warning` or `note`.
pub fn sarif_level(s: Severity) -> (r: &'static str)
    ensures
        r@ == spec_sarif_level(s),
{
    match s {
        Severity::Error => "error",
        Severity::Warning => "warning",
        Severity::Info => "note",
    }
}

/// An RDJSON `severity` for a severity.
pub open spec fn spec_rdjson_severity(s: Severity) -> Seq<char> {
    match s {
        Severity::Error => "ERROR"@,
        Severity::Warning => "WARNING"@,
        Severity::Info => "INFO"@,
    }
}

/// An RDJSON `severity` for a severity: `ERROR`, `WARNING` or `INFO`.
pub fn rdjson_severity(s: Severity) -> (r: &'static str)
    ensures
        r@ == spec_rdjson_severity(s),
{
    match s {
        Severity::Error => "ERROR",
        Severity::Warning => "WARNING",
        Severity::Info => "INFO",
    }
}

/// What escaping one character for a Markdown table cell gives: a pipe is escaped, a line
/// break becomes a space.
pub open spec fn escape_piece(c: char) -> Seq<char> {
    if c == '|' {
        seq!['\\', '|']
    } else if c == '\n' {
        seq![' ']
    } else {
        seq![c]
    }
}

/// `s` with pipes escaped and line breaks turned into spaces, fit for a Markdown table cell.
pub open spec fn spec_escape_cell(s: Seq<char>) -> Seq<char>
    decreases s.len(),
{
    if s.len() == 0 {
        Seq::empty()
    } else {
        spec_escape_cell(s.drop_last()) + escape_piece(s.last())
    }
}

/// Escapes pipes and line breaks, which would otherwise break a Markdown table cell.
pub fn escape_cell(s: &str) -> (r: String)
    ensures
        r@ == spec_escape_cell(s@),
{
    let cs = chars_of(s);
    let mut out = String::new();
    let mut i: usize = 0;
    while i < cs.len()
        invariant
            i <= cs@.len(),
            cs@ == s@,
            out@ == spec_escape_cell(cs@.take(i as int)),
        decreases cs@.len() - i,
    {
        let c = cs[i];
        let ghost before = out@;
        if c == '|' {
            push_char(&mut out, '\\');
            push_char(&mut out, '|');
        } else if c == '\n' {
            push_char(&mut out, ' ');
        } else {
            push_char(&mut out, c);
        }
        proof {
            assert(cs@.take(i + 1).drop_last() =~= cs@.take(i as int));
            assert(out@ =~= before + escape_piece(c));
        }
        i = i + 1;
    }
    proof {
        assert(cs@.take(cs@.len() as int) =~= cs@);
    }
    out
}

/// Where an item is, as `line:column`; empty without a position.
pub open spec fn location_text(r: Option<Range>) -> Seq<char> {
    match r {
        Some(x) => dec(x.start_line as nat) + ":"@ + dec(x.start_column as nat),
        None => Seq::empty(),
    }
}

/// The message cell of an item: its text, then its help if any.
pub open spec fn message_cell(item: ReportItem) -> Seq<char> {
    spec_escape_cell(item@.text) + match item_help(item) {
        Some(h) => " — help: "@ + spec_escape_cell(h),
        None => Seq::empty(),
    }
}

/// One table row.
pub open spec fn table_row(file: Seq<char>, item: ReportItem) -> Seq<char> {
    "| "@ + spec_escape_cell(file) + " | "@ + item@.severity.spec_name() + " | `"@ + item@.rule
        + "` | "@ + location_text(item@.range) + " | "@ + message_cell(item) + " |\n"@
}

/// The rows of one file's items.
pub open spec fn file_rows(file: Seq<char>, items: Seq<ReportItem>) -> Seq<char>
    decreases items.len(),
{
    if items.len() == 0 {
        Seq::empty()
    } else {
        file_rows(file, items.drop_last()) + table_row(file, items.last())
    }
}

/// The rows of every file's items, in order.
pub open spec fn all_rows(results: Seq<(String, String, Vec<ReportItem>)>) -> Seq<char>
    decreases results.len(),
{
    if results.len() == 0 {
        Seq::empty()
    } else {
        all_rows(results.drop_last()) + file_rows(results.last().0@, results.last().2@)
    }
}

/// The number of items across every file.
pub open spec fn issue_count(results: Seq<(String, String, Vec<ReportItem>)>) -> nat
    decreases results.len(),
{
    if results.len() == 0 {
        0
    } else {
        issue_count(results.drop_last()) + results.last().2@.len()
    }
}

/// The Markdown report: a title, then either a line saying nothing was found, or a table of
/// every finding (file, severity, rule, location, message) and a closing count.
pub open spec fn spec_markdown_report(results: Seq<(String, String, Vec<ReportItem>)>) -> Seq<char> {
    let n = issue_count(results);
    "# mq-content-lint Report\n\n"@ + if n == 0 {
        "No content lint issues found.\n"@
    } else {
        "| File | Severity | Rule | Location | Message |\n"@ + "| --- | --- | --- | --- | --- |\n"@
            + all_rows(results) + "\n"@ + "**Found "@ + dec(n) + " issue"@ + (if n == 1 {
            Seq::empty()
        } else {
            "s"@
        }) + ".**\n"@
    }
}

fn table_row_exec(file: &str, item: &ReportItem) -> (r: String)
    ensures
        r@ == table_row(file@, *item),
{
    let mut r = String::from_str("| ");
    r.append(escape_cell(file).as_str());
    r.append(" | ");
    r.append(item.severity().as_str());
    r.append(" | `");
    r.append(item.rule_id());
    r.append("` | ");
    match item.range() {
        Some(x) => {
            r.append(fmt_usize(x.start_line).as_str());
            r.append(":");
            r.append(fmt_usize(x.start_column).as_str());
        },
        None => {},
    }
    r.append(" | ");
    r.append(escape_cell(item.text().as_str()).as_str());
    match item.help() {
        Some(h) => {
            r.append(" — help: ");
            r.append(escape_cell(h.as_str()).as_str());
        },
        None => {},
    }
    r.append(" |\n");
    proof {
        assert(r@ =~= table_row(file@, *item));
    }
    r
}

/// Writes a GitHub-flavored Markdown table of the findings across every linted file (each
/// entry: file label, source, findings).
pub fn markdown_report(results: &Vec<(String, String, Vec<ReportItem>)>) -> (r: String)
    requires
        issue_count(results@) <= usize::MAX,
    ensures
        r@ == spec_markdown_report(results@),
{
    let mut count: usize = 0;
    let mut rows = String::new();
    let mut i: usize = 0;
    while i < results.len()
        invariant
            i <= results@.len(),
            issue_count(results@) <= usize::MAX,
            count == issue_count(results@.take(i as int)),
            rows@ == all_rows(results@.take(i as int)),
        decreases results@.len() - i,
    {
        let (file, _source, items) = &results[i];
        proof {
            assert(results@.take(i + 1).drop_last() =~= results@.take(i as int));
            lemma_issue_count_prefix(results@, i + 1);
        }
        let mut j: usize = 0;
        let ghost start = rows@;
        while j < items.len()
            invariant
                j <= items@.len(),
                rows@ == start + file_rows(file@, items@.take(j as int)),
            decreases items@.len() - j,
        {
            let row = table_row_exec(file.as_str(), &items[j]);
            rows.append(row.as_str());
            proof {
                assert(items@.take(j + 1).drop_last() =~= items@.take(j as int));
                assert(rows@ =~= start + file_rows(file@, items@.take(j + 1)));
            }
            j = j + 1;
        }
        proof {
            assert(items@.take(items@.len() as int) =~= items@);
        }
        count = count + items.len();
        i = i + 1;
    }
    proof {
        assert(results@.take(results@.len() as int) =~= results@);
    }
    assert(count == issue_count(results@));
    assert(rows@ == all_rows(results@));
    let mut r = String::from_str("# mq-content-lint Report\n\n");
    if count == 0 {
        r.append("No content lint issues found.\n");
    } else {
        r.append("| File | Severity | Rule | Location | Message |\n");
        r.append("| --- | --- | --- | --- | --- |\n");
        r.append(rows.as_str());
        r.append("\n");
        r.append("**Found ");
        r.append(fmt_usize(count).as_str());
        r.append(" issue");
        if count != 1 {
            r.append("s");
        }
        r.append(".**\n");
    }
    proof {
        assert(r@ =~= spec_markdown_report(results@));
    }
    r
}

proof fn lemma_issue_count_prefix(results: Seq<(String, String, Vec<ReportItem>)>, k: int)
    requires
        0 <= k <= results.len(),
    ensures
        issue_count(results.take(k)) <= issue_count(results),
    decreases results.len() - k,
{
    if k < results.len() {
        lemma_issue_count_prefix(results, k + 1);
        assert(results.take(k + 1).drop_last() =~= results.take(k));
    } else {
        assert(results.take(k) =~= results);
    }
}

} // verus!
