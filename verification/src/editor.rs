//! What the editor integration decides, apart from the protocol plumbing: which debounced lint
//! pass is still current, where a finding sits in the editor's 0-based coordinates, and the
//! texts of hovers and quick fixes.
use crate::doc::markdown_parse_error;
use crate::report_item::{item_help, item_views, ItemView, ReportItem};
use crate::runner::{lint_items, lints_to, LintFailure};
use crate::text::str_eq;
use crate::{fix_view, Fix, LintConfig, Linter, Range, Severity};
use vstd::prelude::*;

verus! {

/// The generation that follows `g`: one more, wrapping to 0 after the largest.
pub open spec fn next_generation(g: u64) -> u64 {
    if g == u64::MAX {
        0
    } else {
        (g + 1) as u64
    }
}

/// The latest lint generation of each open document, so that a delayed lint pass can tell
/// whether a newer edit superseded it.
pub struct Generations {
    entries: Vec<(String, u64)>,
}

impl Generations {
    #[verifier::type_invariant]
    spec fn keys_distinct(self) -> bool {
        distinct_uris(self.entries@)
    }

    /// The latest generation of each document.
    pub closed spec fn contents(self) -> Map<Seq<char>, u64> {
        generations_map(self.entries@)
    }

    /// No document has a generation yet.
    pub fn new() -> (r: Generations)
        ensures
            r.contents() == Map::<Seq<char>, u64>::empty(),
    {
        Generations { entries: Vec::new() }
    }

    fn find(&self, uri: &str) -> (r: Option<usize>)
        ensures
            match r {
                Some(i) => i < self.entries@.len() && self.entries@[i as int].0@ == uri@
                    && self.contents().contains_key(uri@) && self.contents()[uri@]
                    == self.entries@[i as int].1,
                None => !self.contents().contains_key(uri@),
            },
    {
        proof {
            use_type_invariant(self);
        }
        let mut i: usize = 0;
        while i < self.entries.len()
            invariant
                i <= self.entries@.len(),
                distinct_uris(self.entries@),
                forall|j: int| 0 <= j < i ==> (#[trigger] self.entries@[j]).0@ != uri@,
            decreases self.entries@.len() - i,
        {
            if str_eq(self.entries[i].0.as_str(), uri) {
                proof {
                    lemma_generation_at(self.entries@, i as int);
                }
                return Some(i);
            }
            i = i + 1;
        }
        proof {
            lemma_generation_absent(self.entries@, uri@);
        }
        None
    }

    /// Starts a new generation for `uri` and gives it: one after its last, or 1.
    pub fn bump(&mut self, uri: &str) -> (r: u64)
        ensures
            r == next_generation(
                if old(self).contents().contains_key(uri@) {
                    old(self).contents()[uri@]
                } else {
                    0
                },
            ),
            final(self).contents() == old(self).contents().insert(uri@, r),
    {
        proof {
            use_type_invariant(&*self);
        }
        match self.find(uri) {
            Some(i) => {
                let g = self.entries[i].1;
                let next = if g == u64::MAX {
                    0
                } else {
                    g + 1
                };
                let ghost before = self.entries@;
                let mut es: Vec<(String, u64)> = Vec::new();
                std::mem::swap(&mut es, &mut self.entries);
                let key = String::from_str(uri);
                es.set(i, (key, next));
                proof {
                    lemma_generation_replace(before, i as int, es@[i as int]);
                    assert(es@ =~= before.update(i as int, es@[i as int]));
                    assert forall|a: int, b: int| 0 <= a < b < es@.len() implies (#[trigger] es@[a]).0@
                        != (#[trigger] es@[b]).0@ by {
                        if a != i && b != i {
                            assert(es@[a] == before[a] && es@[b] == before[b]);
                        } else if a == i {
                            assert(es@[b] == before[b]);
                            assert(before[a].0@ != before[b].0@);
                        } else {
                            assert(es@[a] == before[a]);
                            assert(before[a].0@ != before[b].0@);
                        }
                    }
                }
                self.entries = es;
                next
            },
            None => {
                let ghost before = self.entries@;
                let mut es: Vec<(String, u64)> = Vec::new();
                std::mem::swap(&mut es, &mut self.entries);
                es.push((String::from_str(uri), 1));
                proof {
                    assert(es@.drop_last() =~= before);
                    assert forall|a: int, b: int| 0 <= a < b < es@.len() implies (#[trigger] es@[a]).0@
                        != (#[trigger] es@[b]).0@ by {
                        if b < before.len() {
                            assert(es@[a] == before[a] && es@[b] == before[b]);
                        } else {
                            assert(es@[a] == before[a]);
                            lemma_generation_key_of(before, a);
                        }
                    }
                }
                self.entries = es;
                1
            },
        }
    }

    /// Whether `generation` is the latest for `uri`; never for a document without one.
    pub fn is_current(&self, uri: &str, generation: u64) -> (r: bool)
        ensures
            r == (self.contents().contains_key(uri@) && self.contents()[uri@] == generation),
    {
        match self.find(uri) {
            Some(i) => self.entries[i].1 == generation,
            None => false,
        }
    }

    /// Drops the generation of `uri`, as when its document closes.
    pub fn forget(&mut self, uri: &str)
        ensures
            final(self).contents() == old(self).contents().remove(uri@),
    {
        proof {
            use_type_invariant(&*self);
        }
        match self.find(uri) {
            Some(i) => {
                let ghost before = self.entries@;
                let mut es: Vec<(String, u64)> = Vec::new();
                std::mem::swap(&mut es, &mut self.entries);
                es.remove(i);
                proof {
                    lemma_generation_remove(before, i as int);
                    assert forall|a: int, b: int| 0 <= a < b < es@.len() implies (#[trigger] es@[a]).0@
                        != (#[trigger] es@[b]).0@ by {
                        let a0 = if a < i { a } else { a + 1 };
                        let b0 = if b < i { b } else { b + 1 };
                        assert(es@[a] == before[a0] && es@[b] == before[b0]);
                    }
                }
                self.entries = es;
            },
            None => {
                proof {
                    assert(old(self).contents().remove(uri@) =~= old(self).contents());
                }
            },
        }
    }
}

/// The generations of a list of entries as a map.
pub open spec fn generations_map(es: Seq<(String, u64)>) -> Map<Seq<char>, u64>
    decreases es.len(),
{
    if es.len() == 0 {
        Map::empty()
    } else {
        generations_map(es.drop_last()).insert(es.last().0@, es.last().1)
    }
}

pub open spec fn distinct_uris(es: Seq<(String, u64)>) -> bool {
    forall|i: int, j: int| 0 <= i < j < es.len() ==> (#[trigger] es[i]).0@ != (#[trigger] es[j]).0@
}

proof fn lemma_generation_absent(es: Seq<(String, u64)>, uri: Seq<char>)
    requires
        forall|j: int| 0 <= j < es.len() ==> (#[trigger] es[j]).0@ != uri,
    ensures
        !generations_map(es).contains_key(uri),
    decreases es.len(),
{
    if es.len() > 0 {
        lemma_generation_absent(es.drop_last(), uri);
    }
}

proof fn lemma_generation_key_of(es: Seq<(String, u64)>, a: int)
    requires
        0 <= a < es.len(),
    ensures
        generations_map(es).contains_key(es[a].0@),
    decreases es.len(),
{
    if a < es.len() - 1 {
        lemma_generation_key_of(es.drop_last(), a);
    }
}

proof fn lemma_distinct_prefix(es: Seq<(String, u64)>)
    requires
        distinct_uris(es),
        es.len() > 0,
    ensures
        distinct_uris(es.drop_last()),
{
    let d = es.drop_last();
    assert forall|a: int, b: int| 0 <= a < b < d.len() implies (#[trigger] d[a]).0@ != (#[trigger] d[b]).0@ by {
        assert(d[a] == es[a] && d[b] == es[b]);
    }
}

proof fn lemma_generation_at(es: Seq<(String, u64)>, i: int)
    requires
        0 <= i < es.len(),
        distinct_uris(es),
    ensures
        generations_map(es).contains_key(es[i].0@),
        generations_map(es)[es[i].0@] == es[i].1,
    decreases es.len(),
{
    if i < es.len() - 1 {
        lemma_distinct_prefix(es);
        lemma_generation_at(es.drop_last(), i);
        assert(es.drop_last()[i] == es[i]);
    }
}

proof fn lemma_generation_replace(es: Seq<(String, u64)>, i: int, e: (String, u64))
    requires
        0 <= i < es.len(),
        distinct_uris(es),
        e.0@ == es[i].0@,
    ensures
        generations_map(es.update(i, e)) == generations_map(es).insert(e.0@, e.1),
    decreases es.len(),
{
    let u = es.update(i, e);
    let d = es.drop_last();
    if i == es.len() - 1 {
        assert(u.drop_last() =~= d);
        assert(generations_map(u) =~= generations_map(es).insert(e.0@, e.1));
    } else {
        lemma_distinct_prefix(es);
        lemma_generation_replace(d, i, e);
        assert(u.drop_last() =~= d.update(i, e));
        assert(u.last() == es.last());
        assert(es.last().0@ != es[i].0@);
        assert(generations_map(u) =~= generations_map(es).insert(e.0@, e.1));
    }
}

proof fn lemma_generation_remove(es: Seq<(String, u64)>, i: int)
    requires
        0 <= i < es.len(),
        distinct_uris(es),
    ensures
        generations_map(es.remove(i)) == generations_map(es).remove(es[i].0@),
    decreases es.len(),
{
    let d = es.drop_last();
    if i == es.len() - 1 {
        assert(es.remove(i) =~= d);
        lemma_distinct_prefix(es);
        assert forall|j: int| 0 <= j < d.len() implies (#[trigger] d[j]).0@ != es[i].0@ by {
            assert(d[j] == es[j]);
        }
        lemma_generation_absent(d, es[i].0@);
        assert(generations_map(d) =~= generations_map(es).remove(es[i].0@));
    } else {
        lemma_distinct_prefix(es);
        lemma_generation_remove(d, i);
        assert(es.remove(i).drop_last() =~= d.remove(i));
        assert(es.remove(i).last() == es.last());
        assert(es.last().0@ != es[i].0@);
        assert(generations_map(es.remove(i)) =~= generations_map(es).remove(es[i].0@));
    }
}

/// A position in the editor: 0-based line and character.
#[derive(Debug, Clone, Copy, PartialEq, Eq, Structural)]
pub struct EditorPosition {
    pub line: u32,
    pub character: u32,
}

/// A span in the editor, between two positions.
#[derive(Debug, Clone, Copy, PartialEq, Eq, Structural)]
pub struct EditorRange {
    pub start: EditorPosition,
    pub end: EditorPosition,
}

/// Whether `p` comes no earlier than `a`.
pub open spec fn not_before(p: EditorPosition, a: EditorPosition) -> bool {
    p.line > a.line || (p.line == a.line && p.character >= a.character)
}

/// Whether `p` lies within `r`, both ends included (so that a zero-width range still matches
/// its one point).
pub fn position_in_range(r: EditorRange, p: EditorPosition) -> (b: bool)
    ensures
        b == (not_before(p, r.start) && not_before(r.end, p)),
{
    let after_start = p.line > r.start.line || (p.line == r.start.line && p.character
        >= r.start.character);
    let before_end = p.line < r.end.line || (p.line == r.end.line && p.character
        <= r.end.character);
    after_start && before_end
}

/// A 1-based line or column as the editor's 0-based one (0 stays 0), kept to 32 bits.
pub open spec fn zero_based(n: usize) -> u32 {
    (if n >= 1 {
        n - 1
    } else {
        0
    }) as u32
}

fn zero_based_exec(n: usize) -> (r: u32)
    ensures
        r == zero_based(n),
{
    let m: usize = if n >= 1 {
        n - 1
    } else {
        0
    };
    m as u32
}

/// A range of the library (1-based lines and columns) in the editor's coordinates.
pub fn to_editor_range(r: Range) -> (e: EditorRange)
    ensures
        e == (EditorRange {
            start: EditorPosition {
                line: zero_based(r.start_line),
                character: zero_based(r.start_column),
            },
            end: EditorPosition { line: zero_based(r.end_line), character: zero_based(r.end_column) },
        }),
{
    EditorRange {
        start: EditorPosition {
            line: zero_based_exec(r.start_line),
            character: zero_based_exec(r.start_column),
        },
        end: EditorPosition { line: zero_based_exec(r.end_line), character: zero_based_exec(r.end_column) },
    }
}

/// How the editor shows a finding.
#[derive(Debug, Clone, Copy, PartialEq, Eq, Structural)]
pub enum EditorSeverity {
    Error,
    Warning,
    Information,
}

/// The editor severity of a finding's severity.
pub fn editor_severity(s: Severity) -> (r: EditorSeverity)
    ensures
        r == match s {
            Severity::Error => EditorSeverity::Error,
            Severity::Warning => EditorSeverity::Warning,
            Severity::Info => EditorSeverity::Information,
        },
{
    match s {
        Severity::Error => EditorSeverity::Error,
        Severity::Warning => EditorSeverity::Warning,
        Severity::Info => EditorSeverity::Information,
    }
}

/// The hover text of a finding: its rule in bold and its message, then its help.
pub open spec fn spec_hover_text(rule: Seq<char>, message: Seq<char>, help: Option<Seq<char>>) -> Seq<char> {
    "**"@ + rule + "**: "@ + message + match help {
        Some(h) => "\n\nhelp: "@ + h,
        None => Seq::empty(),
    }
}

/// The hover text of a finding of rule `rule` (empty where it has none).
pub fn hover_text(rule: Option<&str>, message: &str, help: Option<&str>) -> (r: String)
    ensures
        r@ == spec_hover_text(
            match rule {
                Some(x) => x@,
                None => Seq::empty(),
            },
            message@,
            match help {
                Some(h) => Some(h@),
                None => None,
            },
        ),
{
    let mut r = String::from_str("**");
    match rule {
        Some(x) => r.append(x),
        None => {},
    }
    r.append("**: ");
    r.append(message);
    match help {
        Some(h) => {
            r.append("\n\nhelp: ");
            r.append(h);
        },
        None => {},
    }
    r
}

/// The comment that turns rule `rule` off for the next line, on a line of its own.
pub fn disable_next_line_comment(rule: &str) -> (r: String)
    ensures
        r@ == "<!-- mq-content-lint-disable-next-line "@ + rule@ + " -->\n"@,
{
    let mut r = String::from_str("<!-- mq-content-lint-disable-next-line ");
    r.append(rule);
    r.append(" -->\n");
    r
}

/// The title of the quick fix that turns rule `rule` off for one line.
pub fn disable_title(rule: &str) -> (r: String)
    ensures
        r@ == "mq-content-lint: disable "@ + rule@ + " for this line"@,
{
    let mut r = String::from_str("mq-content-lint: disable ");
    r.append(rule);
    r.append(" for this line");
    r
}

/// The title of the quick fix that applies a finding's fix.
pub fn fix_title(message: &str) -> (r: String)
    ensures
        r@ == "mq-content-lint: fix ("@ + message@ + ")"@,
{
    let mut r = String::from_str("mq-content-lint: fix (");
    r.append(message);
    r.append(")");
    r
}

/// One finding as the editor shows it: where, how severe, its rule (as the diagnostic's code),
/// its message, its position in the published list, and what later requests about it need,
/// its fix and help.
pub struct EditorEntry {
    pub range: EditorRange,
    pub severity: EditorSeverity,
    pub code: Option<String>,
    pub message: String,
    pub index: Option<usize>,
    pub fix: Option<Fix>,
    pub help: Option<String>,
}

/// The range, severity, code, message, index, fix and help of an entry, as values.
pub open spec fn entry_view(e: EditorEntry) -> (EditorRange, EditorSeverity, Option<Seq<char>>, Seq<char>, Option<usize>, Option<(Range, Seq<char>)>, Option<Seq<char>>) {
    (
        e.range,
        e.severity,
        match e.code {
            Some(c) => Some(c@),
            None => None,
        },
        e.message@,
        e.index,
        fix_view(e.fix),
        match e.help {
            Some(h) => Some(h@),
            None => None,
        },
    )
}

/// The entry of finding `v` (with help `help`) at position `index` of the list.
pub open spec fn finding_entry(v: ItemView, help: Option<Seq<char>>, index: int) -> (EditorRange, EditorSeverity, Option<Seq<char>>, Seq<char>, Option<usize>, Option<(Range, Seq<char>)>, Option<Seq<char>>) {
    (
        match v.range {
            Some(r) => EditorRange {
                start: EditorPosition {
                    line: zero_based(r.start_line),
                    character: zero_based(r.start_column),
                },
                end: EditorPosition { line: zero_based(r.end_line), character: zero_based(r.end_column) },
            },
            None => EditorRange {
                start: EditorPosition { line: 0, character: 0 },
                end: EditorPosition { line: 0, character: 0 },
            },
        },
        match v.severity {
            Severity::Error => EditorSeverity::Error,
            Severity::Warning => EditorSeverity::Warning,
            Severity::Info => EditorSeverity::Information,
        },
        Some(v.rule),
        v.text,
        Some(index as usize),
        v.fix,
        help,
    )
}

/// A warning over the whole document with message `message`, and nothing else.
pub open spec fn message_entry(message: Seq<char>) -> (EditorRange, EditorSeverity, Option<Seq<char>>, Seq<char>, Option<usize>, Option<(Range, Seq<char>)>, Option<Seq<char>>) {
    (
        EditorRange {
            start: EditorPosition { line: 0, character: 0 },
            end: EditorPosition { line: 0, character: 0 },
        },
        EditorSeverity::Warning,
        None,
        message,
        None,
        None,
        None,
    )
}

/// The one entry that stands for a text that could not be linted: a warning over the whole
/// document, naming why.
pub open spec fn failure_entry(f: LintFailure) -> (EditorRange, EditorSeverity, Option<Seq<char>>, Seq<char>, Option<usize>, Option<(Range, Seq<char>)>, Option<Seq<char>>) {
    message_entry("mq-content-lint: "@ + f.spec_text())
}

/// Whether `r` holds one entry per finding of some lint of `source`, in order.
pub open spec fn finding_entries(r: Seq<EditorEntry>, linter: Linter, config: LintConfig, source: Seq<char>) -> bool {
    exists|items: Seq<ReportItem>|
        lints_to(linter, config, source, item_views(items)) && r.len() == items.len() && forall|i: int|
            0 <= i < items.len() ==> entry_view(#[trigger] r[i]) == finding_entry(
                items[i]@,
                item_help(items[i]),
                i,
            )
}

/// The entries the editor shows for `source`: one per finding, in order; or, where the text
/// cannot be linted, one entry saying why instead of nothing.
pub fn editor_entries(source: &str, linter: &Linter, config: &LintConfig) -> (r: Vec<EditorEntry>)
    ensures
        (r@.len() == 1 && exists|f: LintFailure| entry_view(r@[0]) == #[trigger] failure_entry(f))
            || finding_entries(r@, *linter, *config, source@),
        markdown_parse_error(source@) matches Some(m) ==> r@.len() == 1 && entry_view(r@[0])
            == message_entry("mq-content-lint: "@ + m),
        config.custom_rules@.len() == 0 && markdown_parse_error(source@) is None
            ==> finding_entries(r@, *linter, *config, source@),
{
    match lint_items(source, linter, config) {
        Ok(items) => {
            let mut out: Vec<EditorEntry> = Vec::new();
            let mut i: usize = 0;
            while i < items.len()
                invariant
                    i <= items@.len(),
                    out@.len() == i,
                    forall|j: int|
                        0 <= j < i ==> entry_view(#[trigger] out@[j]) == finding_entry(
                            items@[j]@,
                            item_help(items@[j]),
                            j,
                        ),
                decreases items@.len() - i,
            {
                let item = &items[i];
                let range = match item.range() {
                    Some(r) => to_editor_range(r),
                    None => EditorRange {
                        start: EditorPosition { line: 0, character: 0 },
                        end: EditorPosition { line: 0, character: 0 },
                    },
                };
                let fix = match item.fix() {
                    Some(f) => Some(Fix { range: f.range, replacement: f.replacement.clone() }),
                    None => None,
                };
                let entry = EditorEntry {
                    range,
                    severity: editor_severity(item.severity()),
                    code: Some(String::from_str(item.rule_id())),
                    message: item.text(),
                    index: Some(i),
                    fix,
                    help: item.help(),
                };
                proof {
                    assert(entry_view(entry) == finding_entry(items@[i as int]@, item_help(items@[i as int]), i as int));
                }
                out.push(entry);
                i = i + 1;
            }
            proof {
                assert(finding_entries(out@, *linter, *config, source@));
            }
            out
        },
        Err(f) => {
            let mut message = String::from_str("mq-content-lint: ");
            message.append(f.text().as_str());
            let entry = EditorEntry {
                range: EditorRange {
                    start: EditorPosition { line: 0, character: 0 },
                    end: EditorPosition { line: 0, character: 0 },
                },
                severity: EditorSeverity::Warning,
                code: None,
                message,
                index: None,
                fix: None,
                help: None,
            };
            proof {
                assert(entry_view(entry) == failure_entry(f));
            }
            let mut out: Vec<EditorEntry> = Vec::new();
            out.push(entry);
            out
        },
    }
}

} // verus!
