//! Rules on what the text says: link text that does not describe its target, a line of
//! emphasis standing in for a heading, and shell sessions that show commands but no output.
use crate::config::{as_text_list, LintConfig};
use crate::doc::{DocNode, Document, NodeKind};
use crate::message::{LintMessage, RuleId};
use crate::rules::headings::line_at;
use crate::rules::lines::source_lines;
use crate::rules::{concat_upto, finding, finding_of};
use crate::text::{
    chars_eq, chars_of, copy_range, is_blank, lines_view, lowercased, spec_lines, split_lines,
    starts_with, str_eq, to_lowercase, trim, trim_chars, trim_start, trim_start_chars,
};
use crate::{diag_views, fix_view, DiagView, Diagnostic, Fix, Range};
use vstd::prelude::*;

verus! {

// ---------------------------------------------------------------------------------------------
// descriptive_link_text

/// The link texts flagged when the configuration names none.
pub open spec fn default_forbidden() -> Seq<Seq<char>> {
    seq!["click here"@, "here"@, "link"@, "this"@, "more"@, "read more"@, "click"@]
}

/// The forbidden link texts, lowercased: the `forbidden` option's, else the defaults.
pub open spec fn forbidden_texts(config: LintConfig) -> Seq<Seq<char>> {
    let base = match as_text_list(config.spec_rule_option(RuleId::DescriptiveLinkText, "forbidden"@)) {
        Some(l) => l,
        None => default_forbidden(),
    };
    base.map_values(|t: Seq<char>| lowercased(t))
}

pub open spec fn descriptive_each(nodes: Seq<DocNode>, forbidden: Seq<Seq<char>>) -> spec_fn(int) -> Seq<
    DiagView,
> {
    |k: int|
        {
            let node = nodes[k];
            if node.kind == NodeKind::Link && forbidden.contains(lowercased(trim(node.link_text@))) {
                seq![
                    finding(
                        LintMessage::DescriptiveLinkText { text: node.link_text },
                        node.position,
                        None,
                    ),
                ]
            } else {
                Seq::empty()
            }
        }
}

/// One finding per link whose trimmed, lowercased text is a forbidden text.
pub open spec fn spec_descriptive_link_text(nodes: Seq<DocNode>, config: LintConfig) -> Seq<DiagView> {
    concat_upto(nodes.len() as int, descriptive_each(nodes, forbidden_texts(config)))
}

/// Flags a link whose text is one of the forbidden ones, such as "click here".
pub fn descriptive_link_text(doc: &Document, config: &LintConfig) -> (r: Vec<Diagnostic>)
    ensures
        diag_views(r@) == spec_descriptive_link_text(doc.nodes@, *config),
{
    let base: Vec<String> = match config.get_str_array(RuleId::DescriptiveLinkText, "forbidden") {
        Some(l) => l,
        None => {
            let v = vec![
                String::from_str("click here"),
                String::from_str("here"),
                String::from_str("link"),
                String::from_str("this"),
                String::from_str("more"),
                String::from_str("read more"),
                String::from_str("click"),
            ];
            proof {
                assert(v@.map_values(|s: String| s@) =~= default_forbidden());
            }
            v
        },
    };
    let ghost base_v = base@.map_values(|s: String| s@);
    proof {
        assert(base_v.map_values(|t: Seq<char>| lowercased(t)) =~= forbidden_texts(*config));
    }
    let mut forbidden: Vec<String> = Vec::new();
    let mut i: usize = 0;
    while i < base.len()
        invariant
            i <= base@.len(),
            base_v == base@.map_values(|s: String| s@),
            forbidden@.map_values(|s: String| s@) == base_v.take(i as int).map_values(
                |t: Seq<char>| lowercased(t),
            ),
        decreases base@.len() - i,
    {
        proof {
            assert(base_v[i as int] == base@[i as int]@);
        }
        let ghost before = forbidden@;
        let x = to_lowercase(base[i].as_str());
        forbidden.push(x);
        proof {
            assert(forbidden@.map_values(|s: String| s@) =~= before.map_values(|s: String| s@).push(x@));
            assert(base_v.take(i + 1).map_values(|t: Seq<char>| lowercased(t)) =~= base_v.take(i as int).map_values(
                |t: Seq<char>| lowercased(t),
            ).push(lowercased(base_v[i as int])));
        }
        i = i + 1;
    }
    proof {
        assert(base_v.take(base@.len() as int) =~= base_v);
    }
    let ghost fb = forbidden_texts(*config);
    let nodes = &doc.nodes;
    let mut out: Vec<Diagnostic> = Vec::new();
    let mut k: usize = 0;
    proof {
        assert(diag_views(out@) =~= Seq::<DiagView>::empty());
    }
    while k < nodes.len()
        invariant
            k <= nodes@.len(),
            forbidden@.map_values(|s: String| s@) == fb,
            fb == forbidden_texts(*config),
            diag_views(out@) == concat_upto(k as int, descriptive_each(nodes@, fb)),
        decreases nodes@.len() - k,
    {
        let ghost before = diag_views(out@);
        let node = &nodes[k];
        if node.kind == NodeKind::Link {
            let trimmed = trim_chars(&chars_of(node.link_text.as_str()));
            let text = to_lowercase(crate::text::string_of(&trimmed).as_str());
            let mut hit = false;
            let mut m: usize = 0;
            while m < forbidden.len()
                invariant
                    m <= forbidden@.len(),
                    forbidden@.map_values(|s: String| s@) == fb,
                    hit == (exists|q: int| 0 <= q < m && fb[q] == text@),
                decreases forbidden@.len() - m,
            {
                if str_eq(forbidden[m].as_str(), text.as_str()) {
                    hit = true;
                }
                proof {
                    assert(fb[m as int] == forbidden@[m as int]@);
                }
                m = m + 1;
            }
            proof {
                if hit {
                    let q = choose|q: int| 0 <= q < forbidden@.len() && fb[q] == text@;
                    assert(fb.contains(text@));
                }
            }
            if hit {
                out.push(
                    finding_of(
                        LintMessage::DescriptiveLinkText { text: node.link_text.clone() },
                        node.position,
                        None,
                    ),
                );
            }
            proof {
                assert(diag_views(out@) =~= before + descriptive_each(nodes@, fb)(k as int));
            }
        } else {
            proof {
                assert(diag_views(out@) =~= before + descriptive_each(nodes@, fb)(k as int));
            }
        }
        k = k + 1;
    }
    out
}

// ---------------------------------------------------------------------------------------------
// no_emphasis_as_heading

/// The finding for top-level node `node` when it is emphasis or strong emphasis making up its
/// whole (non-blank) line, as a heading would.
pub open spec fn emphasis_heading_finding(node: DocNode, ls: Seq<Seq<char>>) -> Seq<DiagView> {
    if node.kind != NodeKind::Strong && node.kind != NodeKind::Emphasis {
        Seq::empty()
    } else {
        match node.position {
            Some(p) => if p.start_line != p.end_line {
                Seq::empty()
            } else {
                match line_at(ls, p.start_line as int) {
                    Some(line) => if p.start_column == 0 || p.end_column == 0 || p.end_column - 1
                        > line.len() || p.start_column > p.end_column {
                        Seq::empty()
                    } else {
                        let span = line.subrange(p.start_column - 1, p.end_column - 1);
                        let t = trim(line);
                        if t.len() > 0 && trim(span) == t {
                            seq![
                                finding(
                                    LintMessage::NoEmphasisAsHeading { text: node.value },
                                    Some(p),
                                    None,
                                ),
                            ]
                        } else {
                            Seq::empty()
                        }
                    },
                    None => Seq::empty(),
                }
            },
            None => Seq::empty(),
        }
    }
}

/// One finding per top-level emphasis that makes up its whole line.
pub open spec fn spec_no_emphasis_as_heading(top: Seq<DocNode>, source: Seq<char>) -> Seq<DiagView> {
    let ls = spec_lines(source);
    concat_upto(top.len() as int, |k: int| emphasis_heading_finding(top[k], ls))
}

fn emphasis_heading_exec(node: &DocNode, lines: &Vec<Vec<char>>) -> (r: Vec<Diagnostic>)
    ensures
        diag_views(r@) == emphasis_heading_finding(*node, lines_view(lines@)),
{
    let mut out: Vec<Diagnostic> = Vec::new();
    proof {
        assert(diag_views(out@) =~= Seq::<DiagView>::empty());
    }
    if node.kind != NodeKind::Strong && node.kind != NodeKind::Emphasis {
        return out;
    }
    let p = match node.position {
        Some(p) => p,
        None => {
            return out;
        },
    };
    if p.start_line != p.end_line || p.start_line < 1 || p.start_line > lines.len() {
        return out;
    }
    let line = &lines[p.start_line - 1];
    proof {
        assert(lines_view(lines@)[p.start_line - 1] == line@);
    }
    if p.start_column == 0 || p.end_column == 0 || p.end_column - 1 > line.len() || p.start_column
        > p.end_column {
        return out;
    }
    let span = copy_range(line, p.start_column - 1, p.end_column - 1);
    let t = trim_chars(line);
    let ts = trim_chars(&span);
    if t.len() > 0 && chars_eq(&ts, &t) {
        out.push(
            finding_of(LintMessage::NoEmphasisAsHeading { text: node.value.clone() }, Some(p), None),
        );
        proof {
            assert(diag_views(out@) =~= emphasis_heading_finding(*node, lines_view(lines@)));
        }
    }
    out
}

/// Flags a top-level emphasis or strong emphasis that makes up its whole line, where a heading
/// was likely meant.
pub fn no_emphasis_as_heading(doc: &Document, source: &str) -> (r: Vec<Diagnostic>)
    ensures
        diag_views(r@) == spec_no_emphasis_as_heading(doc.top@, source@),
{
    let top = &doc.top;
    let lines = source_lines(source);
    let ghost ls = spec_lines(source@);
    let mut out: Vec<Diagnostic> = Vec::new();
    let mut k: usize = 0;
    proof {
        assert(diag_views(out@) =~= Seq::<DiagView>::empty());
    }
    while k < top.len()
        invariant
            k <= top@.len(),
            lines_view(lines@) == ls,
            ls == spec_lines(source@),
            diag_views(out@) == concat_upto(k as int, |j: int| emphasis_heading_finding(top@[j], ls)),
        decreases top@.len() - k,
    {
        let more = emphasis_heading_exec(&top[k], &lines);
        crate::rules::append_all(&mut out, more);
        k = k + 1;
    }
    out
}

// ---------------------------------------------------------------------------------------------
// commands_show_output

/// A line of a shell session with its `$ ` prompt dropped.
pub open spec fn without_prompt(l: Seq<char>) -> Seq<char> {
    if starts_with(l, seq!['$', ' ']) {
        l.skip(2)
    } else {
        l
    }
}

/// The lines without their prompts, joined with line feeds.
pub open spec fn prompts_dropped(ls: Seq<Seq<char>>) -> Seq<char>
    decreases ls.len(),
{
    if ls.len() == 0 {
        Seq::empty()
    } else if ls.len() == 1 {
        without_prompt(ls[0])
    } else {
        prompts_dropped(ls.drop_last()) + seq!['\n'] + without_prompt(ls.last())
    }
}

/// Whether a code block's lines are all commands: it has a non-blank line, and each
/// non-blank line starts (after indentation) with `$ `.
pub open spec fn only_commands(ls: Seq<Seq<char>>) -> bool {
    (exists|i: int| 0 <= i < ls.len() && trim(#[trigger] ls[i]).len() > 0) && (forall|i: int|
        0 <= i < ls.len() && trim(#[trigger] ls[i]).len() > 0 ==> starts_with(
            trim_start(ls[i]),
            seq!['$', ' '],
        ))
}

/// The fix of a commands-only block at `p`: its content lines without their prompts.
pub open spec fn commands_fix(p: Range, ls: Seq<Seq<char>>) -> Option<(Range, Seq<char>)> {
    let start = p.start_line + 1;
    let end = if p.end_line >= 1 {
        p.end_line - 1
    } else {
        0
    };
    if p.start_line < usize::MAX && end >= start {
        Some(
            (
                Range {
                    start_line: start as usize,
                    start_column: 1,
                    end_line: (end + 1) as usize,
                    end_column: 1,
                },
                prompts_dropped(ls) + seq!['\n'],
            ),
        )
    } else {
        None
    }
}

pub open spec fn commands_each(nodes: Seq<DocNode>) -> spec_fn(int) -> Seq<DiagView> {
    |k: int|
        {
            let node = nodes[k];
            let ls = spec_lines(node.value@);
            if node.kind == NodeKind::Code && only_commands(ls) {
                seq![
                    finding(
                        LintMessage::CommandsShowOutput,
                        node.position,
                        match node.position {
                            Some(p) => commands_fix(p, ls),
                            None => None,
                        },
                    ),
                ]
            } else {
                Seq::empty()
            }
        }
}

/// One finding per code block made only of `$ ` commands.
pub open spec fn spec_commands_show_output(nodes: Seq<DocNode>) -> Seq<DiagView> {
    concat_upto(nodes.len() as int, commands_each(nodes))
}

fn only_commands_exec(lines: &Vec<Vec<char>>) -> (r: bool)
    ensures
        r == only_commands(lines_view(lines@)),
{
    let ghost ls = lines_view(lines@);
    let mut any = false;
    let mut all = true;
    let mut i: usize = 0;
    while i < lines.len()
        invariant
            i <= lines@.len(),
            ls == lines_view(lines@),
            any == (exists|j: int| 0 <= j < i && trim(#[trigger] ls[j]).len() > 0),
            all == (forall|j: int|
                0 <= j < i && trim(#[trigger] ls[j]).len() > 0 ==> starts_with(
                    trim_start(ls[j]),
                    seq!['$', ' '],
                )),
        decreases lines@.len() - i,
    {
        proof {
            assert(ls[i as int] == lines@[i as int]@);
        }
        if !is_blank(&lines[i]) {
            any = true;
            let t = trim_start_chars(&lines[i]);
            let prompt = t.len() >= 2 && t[0] == '$' && t[1] == ' ';
            proof {
                if prompt {
                    assert(t@.take(2) =~= seq!['$', ' ']);
                }
                if starts_with(t@, seq!['$', ' ']) {
                    assert(t@.take(2)[0] == '$' && t@.take(2)[1] == ' ');
                }
            }
            if !prompt {
                all = false;
            }
        }
        i = i + 1;
    }
    any && all
}

fn prompts_dropped_exec(lines: &Vec<Vec<char>>) -> (r: String)
    ensures
        r@ == prompts_dropped(lines_view(lines@)),
{
    let ghost ls = lines_view(lines@);
    let mut r = String::new();
    let mut i: usize = 0;
    while i < lines.len()
        invariant
            i <= lines@.len(),
            ls == lines_view(lines@),
            r@ == prompts_dropped(ls.take(i as int)),
        decreases lines@.len() - i,
    {
        let l = &lines[i];
        proof {
            assert(ls[i as int] == l@);
            assert(ls.take(i + 1).drop_last() =~= ls.take(i as int));
            assert(ls.take(i + 1).last() == l@);
        }
        let has_prompt = l.len() >= 2 && l[0] == '$' && l[1] == ' ';
        let stripped = if has_prompt {
            copy_range(l, 2, l.len())
        } else {
            copy_range(l, 0, l.len())
        };
        proof {
            if has_prompt {
                assert(l@.take(2) =~= seq!['$', ' ']);
            }
            if starts_with(l@, seq!['$', ' ']) {
                assert(l@.take(2)[0] == '$' && l@.take(2)[1] == ' ');
            }
            assert(stripped@ =~= without_prompt(l@));
        }
        if i > 0 {
            crate::text::push_char(&mut r, '\n');
        }
        crate::text::push_chars(&mut r, &stripped);
        proof {
            if i == 0 {
                assert(ls.take(1) =~= seq![l@]);
            }
            assert(r@ =~= prompts_dropped(ls.take(i + 1)));
        }
        i = i + 1;
    }
    proof {
        assert(ls.take(lines@.len() as int) =~= ls);
    }
    r
}

/// Flags a code block whose every non-blank line is a `$ ` command, with no output shown; the
/// fix drops the prompts.
pub fn commands_show_output(doc: &Document) -> (r: Vec<Diagnostic>)
    ensures
        diag_views(r@) == spec_commands_show_output(doc.nodes@),
{
    let nodes = &doc.nodes;
    let mut out: Vec<Diagnostic> = Vec::new();
    let mut k: usize = 0;
    proof {
        assert(diag_views(out@) =~= Seq::<DiagView>::empty());
    }
    while k < nodes.len()
        invariant
            k <= nodes@.len(),
            diag_views(out@) == concat_upto(k as int, commands_each(nodes@)),
        decreases nodes@.len() - k,
    {
        let ghost before = diag_views(out@);
        let node = &nodes[k];
        if node.kind == NodeKind::Code {
            let cs = chars_of(node.value.as_str());
            let lines = split_lines(&cs);
            let ghost ls = spec_lines(node.value@);
            assert(lines_view(lines@) == ls);
            if only_commands_exec(&lines) {
                let fix = match node.position {
                    Some(p) => {
                        let end = if p.end_line >= 1 {
                            p.end_line - 1
                        } else {
                            0
                        };
                        if p.start_line < usize::MAX && end >= p.start_line + 1 {
                            let mut rep = prompts_dropped_exec(&lines);
                            crate::text::push_char(&mut rep, '\n');
                            Some(
                                Fix {
                                    range: Range {
                                        start_line: p.start_line + 1,
                                        start_column: 1,
                                        end_line: end + 1,
                                        end_column: 1,
                                    },
                                    replacement: rep,
                                },
                            )
                        } else {
                            None
                        }
                    },
                    None => None,
                };
                proof {
                    assert(fix_view(fix) == match node.position {
                        Some(p) => commands_fix(p, ls),
                        None => None,
                    });
                }
                out.push(finding_of(LintMessage::CommandsShowOutput, node.position, fix));
            }
        }
        proof {
            assert(diag_views(out@) =~= before + commands_each(nodes@)(k as int));
        }
        k = k + 1;
    }
    out
}

} // verus!
