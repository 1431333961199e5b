//! Rules that scan each source line outside code blocks for a pattern: emphasis with spaces
//! just inside its markers, reversed link syntax `(text)[url]`, and bare URLs.
use crate::doc::{DocNode, Document};
use crate::message::{LintMessage, RuleId};
use crate::rules::lines::{in_code_block, lemma_source_lines, line_range, source_lines, within_code_block};
use crate::rules::{concat_upto, finding, finding_of, spec_default_severity};
use crate::text::{
    alphanumeric, copy_range, count_while, has_prefix_at, is_alphanumeric, lines_view, push_chars,
    run_from, spec_lines, starts_with, trim, trim_chars, CharClass,
};
use crate::{diag_views, DiagView, Diagnostic, Fix, Range};
use vstd::prelude::*;

verus! {

/// Whether `s` holds an alphanumeric character.
pub open spec fn has_alnum(s: Seq<char>) -> bool {
    exists|k: int| 0 <= k < s.len() && alphanumeric(#[trigger] s[k])
}

fn has_alnum_exec(s: &Vec<char>) -> (r: bool)
    ensures
        r == has_alnum(s@),
{
    let mut i: usize = 0;
    while i < s.len()
        invariant
            i <= s@.len(),
            forall|k: int| 0 <= k < i ==> !alphanumeric(#[trigger] s@[k]),
        decreases s@.len() - i,
    {
        if is_alphanumeric(s[i]) {
            return true;
        }
        i = i + 1;
    }
    false
}

/// The findings of one scanned line: one per finding of `line_findings` on each line outside a
/// code block.
pub open spec fn scanned_each(
    rule: RuleId,
    nodes: Seq<DocNode>,
    ls: Seq<Seq<char>>,
) -> spec_fn(int) -> Seq<DiagView> {
    |j: int|
        if in_code_block(nodes, j + 1) {
            Seq::empty()
        } else {
            line_findings(rule, j + 1, ls[j], 0)
        }
}

/// The findings of the scan `rule` on line `line` (number `n`) from character `i` on.
pub open spec fn line_findings(rule: RuleId, n: int, line: Seq<char>, i: int) -> Seq<DiagView>
    decreases line.len() - i,
{
    if i < 0 || i >= line.len() {
        Seq::empty()
    } else {
        match step(rule, n, line, i) {
            Some((found, next)) => if i < next <= line.len() {
                found + line_findings(rule, n, line, next)
            } else {
                Seq::empty()
            },
            None => line_findings(rule, n, line, i + 1),
        }
    }
}

/// What the scan `rule` finds at character `i` of `line`: the findings there and where to go
/// on, or `None` to go on at the next character.
pub open spec fn step(rule: RuleId, n: int, line: Seq<char>, i: int) -> Option<(Seq<DiagView>, int)> {
    if rule == RuleId::NoSpaceInEmphasis {
        spaced_emphasis_at(n, line, i)
    } else if rule == RuleId::NoReversedLinks {
        reversed_link_at(n, line, i)
    } else {
        bare_url_at(n, line, i)
    }
}

// ---------------------------------------------------------------------------------------------
// no_space_in_emphasis

/// Emphasis with a space just inside its markers starting at `i`: `* text *` or `_ text _`
/// around text with a letter or digit; the fix drops the spaces.
pub open spec fn spaced_emphasis_at(n: int, line: Seq<char>, i: int) -> Option<(Seq<DiagView>, int)> {
    let m = line[i];
    if (m != '*' && m != '_') || i + 2 >= line.len() || line[i + 1] != ' ' {
        None
    } else {
        let j = i + 2 + count_while(line.skip(i + 2), CharClass::Not(m)) as int;
        if j >= line.len() || line[j - 1] != ' ' {
            None
        } else {
            let inner = trim(line.subrange(i + 1, j));
            if has_alnum(inner) {
                let range = line_range(n, i + 1, j + 2);
                Some(
                    (
                        seq![
                            finding(
                                LintMessage::NoSpaceInEmphasis,
                                Some(range),
                                Some((range, seq![m] + inner + seq![m])),
                            ),
                        ],
                        j + 1,
                    ),
                )
            } else {
                None
            }
        }
    }
}

// ---------------------------------------------------------------------------------------------
// no_reversed_links

/// Reversed link syntax `(text)[url]` starting at `i`, with non-empty text and a non-empty
/// url without spaces; the fix writes `[text](url)`.
pub open spec fn reversed_link_at(n: int, line: Seq<char>, i: int) -> Option<(Seq<DiagView>, int)> {
    if line[i] != '(' {
        None
    } else {
        let p = i + 1 + count_while(line.skip(i + 1), CharClass::NotEither(')', '(')) as int;
        if p >= line.len() || line[p] != ')' || p + 1 >= line.len() || line[p + 1] != '[' {
            None
        } else {
            let b = p + 2 + count_while(line.skip(p + 2), CharClass::Not(']')) as int;
            if b >= line.len() {
                None
            } else {
                let text = line.subrange(i + 1, p);
                let url = line.subrange(p + 2, b);
                if text.len() > 0 && url.len() > 0 && !url.contains(' ') {
                    let range = line_range(n, i + 1, b + 2);
                    Some(
                        (
                            seq![
                                DiagView {
                                    rule: RuleId::NoReversedLinks,
                                    text: "reversed link syntax `"@ + (seq!['('] + text + seq![')', '['] + url
                                        + seq![']']) + "`"@,
                                    severity: spec_default_severity(RuleId::NoReversedLinks),
                                    range: Some(range),
                                    fix: Some(
                                        (range, seq!['['] + text + seq![']', '('] + url + seq![')']),
                                    ),
                                },
                            ],
                            b + 1,
                        ),
                    )
                } else {
                    None
                }
            }
        }
    }
}

// ---------------------------------------------------------------------------------------------
// no_bare_urls

/// A bare `http://` or `https://` URL starting at `i`, running to the next whitespace, `>` or
/// `)`: a finding unless it follows `<` or `(`; the scan goes on after it either way. The fix
/// wraps it in `<...>`.
pub open spec fn bare_url_at(n: int, line: Seq<char>, i: int) -> Option<(Seq<DiagView>, int)> {
    if !starts_with(line.skip(i), "http://"@) && !starts_with(line.skip(i), "https://"@) {
        None
    } else {
        let j = i + count_while(line.skip(i), CharClass::UrlBody) as int;
        let url = line.subrange(i, j);
        let range = line_range(n, i + 1, j + 1);
        let found = if i > 0 && (line[i - 1] == '<' || line[i - 1] == '(') {
            Seq::empty()
        } else {
            seq![
                DiagView {
                    rule: RuleId::NoBareUrls,
                    text: "bare URL `"@ + url + "` used without link syntax"@,
                    severity: spec_default_severity(RuleId::NoBareUrls),
                    range: Some(range),
                    fix: Some((range, seq!['<'] + url + seq!['>'])),
                },
            ]
        };
        Some((found, j))
    }
}

/// The findings of scan `rule`: its findings on every line outside code blocks, in order.
pub open spec fn spec_scan_rule(rule: RuleId, nodes: Seq<DocNode>, source: Seq<char>) -> Seq<DiagView> {
    let ls = spec_lines(source);
    concat_upto(ls.len() as int, scanned_each(rule, nodes, ls))
}

fn spaced_emphasis_exec(n: usize, line: &Vec<char>, i: usize) -> (r: Option<(Vec<Diagnostic>, usize)>)
    requires
        i < line@.len(),
        line@.len() < usize::MAX,
    ensures
        match r {
            Some((v, next)) => spaced_emphasis_at(n as int, line@, i as int) == Some(
                (diag_views(v@), next as int),
            ),
            None => spaced_emphasis_at(n as int, line@, i as int) is None,
        },
{
    let m = line[i];
    if (m != '*' && m != '_') || i + 2 >= line.len() || line[i + 1] != ' ' {
        return None;
    }
    let j = i + 2 + run_from(line, i + 2, CharClass::Not(m));
    if j >= line.len() || line[j - 1] != ' ' {
        return None;
    }
    let raw = copy_range(line, i + 1, j);
    let inner = trim_chars(&raw);
    if !has_alnum_exec(&inner) {
        return None;
    }
    let range = Range::single_line(n, i + 1, j + 2);
    let mut rep = String::new();
    crate::text::push_char(&mut rep, m);
    push_chars(&mut rep, &inner);
    crate::text::push_char(&mut rep, m);
    let fix = Fix { range, replacement: rep };
    let mut v: Vec<Diagnostic> = Vec::new();
    v.push(finding_of(LintMessage::NoSpaceInEmphasis, Some(range), Some(fix)));
    proof {
        assert(rep@ =~= seq![m] + inner@ + seq![m]);
        assert(diag_views(v@) =~= spaced_emphasis_at(n as int, line@, i as int).unwrap().0);
    }
    Some((v, j + 1))
}

fn reversed_link_exec(n: usize, line: &Vec<char>, i: usize) -> (r: Option<(Vec<Diagnostic>, usize)>)
    requires
        i < line@.len(),
        line@.len() < usize::MAX,
    ensures
        match r {
            Some((v, next)) => reversed_link_at(n as int, line@, i as int) == Some(
                (diag_views(v@), next as int),
            ),
            None => reversed_link_at(n as int, line@, i as int) is None,
        },
{
    if line[i] != '(' {
        return None;
    }
    let p = i + 1 + run_from(line, i + 1, CharClass::NotEither(')', '('));
    if p >= line.len() || line[p] != ')' || p + 1 >= line.len() || line[p + 1] != '[' {
        return None;
    }
    let b = p + 2 + run_from(line, p + 2, CharClass::Not(']'));
    if b >= line.len() {
        return None;
    }
    let text = copy_range(line, i + 1, p);
    let url = copy_range(line, p + 2, b);
    let mut spaced = false;
    let mut k: usize = 0;
    while k < url.len()
        invariant
            k <= url@.len(),
            spaced == (exists|m: int| 0 <= m < k && url@[m] == ' '),
        decreases url@.len() - k,
    {
        if url[k] == ' ' {
            spaced = true;
        }
        k = k + 1;
    }
    proof {
        assert(spaced == url@.contains(' '));
    }
    if text.len() == 0 || url.len() == 0 || spaced {
        return None;
    }
    let range = Range::single_line(n, i + 1, b + 2);
    let mut shown = String::new();
    crate::text::push_char(&mut shown, '(');
    push_chars(&mut shown, &text);
    crate::text::push_char(&mut shown, ')');
    crate::text::push_char(&mut shown, '[');
    push_chars(&mut shown, &url);
    crate::text::push_char(&mut shown, ']');
    let mut rep = String::new();
    crate::text::push_char(&mut rep, '[');
    push_chars(&mut rep, &text);
    crate::text::push_char(&mut rep, ']');
    crate::text::push_char(&mut rep, '(');
    push_chars(&mut rep, &url);
    crate::text::push_char(&mut rep, ')');
    let ghost shown_v = shown@;
    let fix = Fix { range, replacement: rep };
    let mut v: Vec<Diagnostic> = Vec::new();
    v.push(finding_of(LintMessage::NoReversedLinks { text: shown }, Some(range), Some(fix)));
    proof {
        assert(shown_v =~= seq!['('] + text@ + seq![')', '['] + url@ + seq![']']);
        assert(rep@ =~= seq!['['] + text@ + seq![']', '('] + url@ + seq![')']);
        assert(diag_views(v@) =~= reversed_link_at(n as int, line@, i as int).unwrap().0);
    }
    Some((v, b + 1))
}

fn bare_url_exec(n: usize, line: &Vec<char>, i: usize) -> (r: Option<(Vec<Diagnostic>, usize)>)
    requires
        i < line@.len(),
        line@.len() < usize::MAX,
    ensures
        match r {
            Some((v, next)) => bare_url_at(n as int, line@, i as int) == Some(
                (diag_views(v@), next as int),
            ),
            None => bare_url_at(n as int, line@, i as int) is None,
        },
{
    if !has_prefix_at(line, i, "http://") && !has_prefix_at(line, i, "https://") {
        return None;
    }
    let j = i + run_from(line, i, CharClass::UrlBody);
    let mut v: Vec<Diagnostic> = Vec::new();
    if i > 0 && (line[i - 1] == '<' || line[i - 1] == '(') {
        proof {
            assert(diag_views(v@) =~= Seq::<DiagView>::empty());
        }
        return Some((v, j));
    }
    let url = copy_range(line, i, j);
    let range = Range::single_line(n, i + 1, j + 1);
    let mut rep = String::new();
    crate::text::push_char(&mut rep, '<');
    push_chars(&mut rep, &url);
    crate::text::push_char(&mut rep, '>');
    let fix = Fix { range, replacement: rep };
    let shown = crate::text::string_of(&url);
    v.push(finding_of(LintMessage::NoBareUrls { url: shown }, Some(range), Some(fix)));
    proof {
        assert(rep@ =~= seq!['<'] + url@ + seq!['>']);
        assert(diag_views(v@) =~= bare_url_at(n as int, line@, i as int).unwrap().0);
    }
    Some((v, j))
}

/// The findings of scan `rule` on line `line`, number `n`.
fn scan_line(rule: RuleId, n: usize, line: &Vec<char>) -> (r: Vec<Diagnostic>)
    requires
        line@.len() < usize::MAX,
    ensures
        diag_views(r@) == line_findings(rule, n as int, line@, 0),
{
    let mut out: Vec<Diagnostic> = Vec::new();
    let mut i: usize = 0;
    proof {
        assert(diag_views(out@) + line_findings(rule, n as int, line@, 0) =~= line_findings(
            rule,
            n as int,
            line@,
            0,
        ));
    }
    while i < line.len()
        invariant
            i <= line@.len(),
            line@.len() < usize::MAX,
            diag_views(out@) + line_findings(rule, n as int, line@, i as int) == line_findings(
                rule,
                n as int,
                line@,
                0,
            ),
        decreases line@.len() - i,
    {
        let ghost before = diag_views(out@);
        let here = if rule == RuleId::NoSpaceInEmphasis {
            spaced_emphasis_exec(n, line, i)
        } else if rule == RuleId::NoReversedLinks {
            reversed_link_exec(n, line, i)
        } else {
            bare_url_exec(n, line, i)
        };
        match here {
            Some((found, next)) => {
                if next <= i || next > line.len() {
                    proof {
                        assert(line_findings(rule, n as int, line@, i as int) =~= Seq::<DiagView>::empty());
                        assert(diag_views(out@) =~= line_findings(rule, n as int, line@, 0));
                    }
                    return out;
                }
                crate::rules::append_all(&mut out, found);
                proof {
                    assert(diag_views(out@) + line_findings(rule, n as int, line@, next as int)
                        =~= before + line_findings(rule, n as int, line@, i as int));
                }
                i = next;
            },
            None => {
                i = i + 1;
            },
        }
    }
    proof {
        assert(diag_views(out@) =~= line_findings(rule, n as int, line@, 0));
    }
    out
}

/// Runs scan `rule` (`no_space_in_emphasis`, `no_reversed_links` or `no_bare_urls`) on every
/// source line outside code blocks.
pub fn scan_rule(rule: RuleId, doc: &Document, source: &str) -> (r: Vec<Diagnostic>)
    requires
        source@.len() < usize::MAX,
    ensures
        diag_views(r@) == spec_scan_rule(rule, doc.nodes@, source@),
{
    let nodes = &doc.nodes;
    let lines = source_lines(source);
    let ghost ls = spec_lines(source@);
    proof {
        lemma_source_lines(source@);
    }
    let mut out: Vec<Diagnostic> = Vec::new();
    let mut j: usize = 0;
    proof {
        assert(diag_views(out@) =~= Seq::<DiagView>::empty());
    }
    while j < lines.len()
        invariant
            j <= lines@.len(),
            lines_view(lines@) == ls,
            ls == spec_lines(source@),
            ls.len() <= source@.len(),
            source@.len() < usize::MAX,
            forall|m: int| 0 <= m < ls.len() ==> (#[trigger] ls[m]).len() <= source@.len(),
            diag_views(out@) == concat_upto(j as int, scanned_each(rule, nodes@, ls)),
        decreases lines@.len() - j,
    {
        let ghost before = diag_views(out@);
        proof {
            assert(lines_view(lines@)[j as int] == lines@[j as int]@);
        }
        if within_code_block(nodes, j + 1) {
            proof {
                assert(diag_views(out@) =~= before + Seq::<DiagView>::empty());
            }
        } else {
            let more = scan_line(rule, j + 1, &lines[j]);
            crate::rules::append_all(&mut out, more);
        }
        j = j + 1;
    }
    out
}

} // verus!
