//! Inline HTML comments that suppress diagnostics for a region of the source, independent of
//! the configuration file.
//!
//! Four directives, each its own HTML comment on its own line (leading/trailing whitespace on
//! the line is fine; anything else sharing the line is not):
//!
//! - `<!-- mq-content-lint-disable [RULE_ID, ...] -->`: suppress the named rules (or every rule,
//!   if none are named) from this line onward, until a matching `-enable`.
//! - `<!-- mq-content-lint-enable [RULE_ID, ...] -->`: re-enable the named rules (or every rule).
//! - `<!-- mq-content-lint-disable-line [RULE_ID, ...] -->`: suppress only on the comment's
//!   own line.
//! - `<!-- mq-content-lint-disable-next-line [RULE_ID, ...] -->`: suppress only on the following
//!   line.
//!
//! `RULE_ID` is a comma-separated list of built-in or custom rule ids.
use crate::text::{
    chars_of, copy_range, count_while, ends_with, has_prefix_at, has_suffix_at, lines_view,
    run_from, spec_lines, split_at_char, split_char, split_lines, starts_with, str_eq,
    string_of, trim, trim_chars, CharClass,
};
use vstd::prelude::*;

verus! {

/// The four directive names.
#[derive(Debug, Clone, Copy, PartialEq, Eq, Structural)]
pub enum DirectiveKind {
    Disable,
    Enable,
    DisableLine,
    DisableNextLine,
}

/// A parsed directive: its kind and the rule ids it names (none means every rule).
pub struct Directive {
    pub kind: DirectiveKind,
    pub rules: Vec<String>,
}

/// The character sequences of a vector of strings.
pub open spec fn strings(v: Seq<String>) -> Seq<Seq<char>> {
    v.map_values(|s: String| s@)
}

impl Directive {
    pub open spec fn spec_view(&self) -> (DirectiveKind, Seq<Seq<char>>) {
        (self.kind, strings(self.rules@))
    }
}

pub open spec fn directive_view(d: Option<Directive>) -> Option<(DirectiveKind, Seq<Seq<char>>)> {
    match d {
        Some(x) => Some(x.spec_view()),
        None => None,
    }
}

/// The directive a comment's name selects.
pub open spec fn directive_kind(name: Seq<char>) -> Option<DirectiveKind> {
    if name == "mq-content-lint-disable"@ {
        Some(DirectiveKind::Disable)
    } else if name == "mq-content-lint-enable"@ {
        Some(DirectiveKind::Enable)
    } else if name == "mq-content-lint-disable-line"@ {
        Some(DirectiveKind::DisableLine)
    } else if name == "mq-content-lint-disable-next-line"@ {
        Some(DirectiveKind::DisableNextLine)
    } else {
        None
    }
}

/// The trimmed text between `<!--` and `-->` when the whole trimmed line is one HTML comment.
pub open spec fn comment_body(line: Seq<char>) -> Option<Seq<char>> {
    let t = trim(line);
    let open = "<!--"@;
    let close = "-->"@;
    if starts_with(t, open) && ends_with(t.skip(open.len() as int), close) {
        let u = t.skip(open.len() as int);
        Some(trim(u.take(u.len() - close.len())))
    } else {
        None
    }
}

/// The comment's first word: everything before its first whitespace character.
pub open spec fn directive_name(inner: Seq<char>) -> Seq<char> {
    let k = count_while(inner, CharClass::NotWhitespace) as int;
    if k < inner.len() {
        inner.take(k)
    } else {
        inner
    }
}

/// What follows the first whitespace character of the comment.
pub open spec fn directive_rest(inner: Seq<char>) -> Seq<char> {
    let k = count_while(inner, CharClass::NotWhitespace) as int;
    if k < inner.len() {
        inner.skip(k + 1)
    } else {
        Seq::empty()
    }
}

/// The trimmed pieces that are not empty, in order.
pub open spec fn rule_list(pieces: Seq<Seq<char>>) -> Seq<Seq<char>>
    decreases pieces.len(),
{
    if pieces.len() == 0 {
        Seq::empty()
    } else {
        let r = rule_list(pieces.drop_last());
        let t = trim(pieces.last());
        if t.len() > 0 {
            r.push(t)
        } else {
            r
        }
    }
}

/// The directive on `line`, if the whole trimmed line is one recognized directive comment.
pub open spec fn spec_parse_directive(line: Seq<char>) -> Option<(DirectiveKind, Seq<Seq<char>>)> {
    match comment_body(line) {
        None => None,
        Some(inner) => match directive_kind(directive_name(inner)) {
            None => None,
            Some(k) => Some((k, rule_list(split_at_char(directive_rest(inner), ',')))),
        },
    }
}

/// The block state (every rule disabled?, rules disabled by name) after one more directive.
pub open spec fn step(
    st: (bool, Set<Seq<char>>),
    d: Option<(DirectiveKind, Seq<Seq<char>>)>,
) -> (bool, Set<Seq<char>>) {
    match d {
        Some((DirectiveKind::Disable, rs)) => if rs.len() == 0 {
            (true, st.1)
        } else {
            (st.0, st.1.union(rs.to_set()))
        },
        Some((DirectiveKind::Enable, rs)) => if rs.len() == 0 {
            (false, Set::empty())
        } else {
            (st.0, st.1.difference(rs.to_set()))
        },
        _ => st,
    }
}

/// The block state once the first `n` lines have been read.
pub open spec fn block_after(lines: Seq<Seq<char>>, n: int) -> (bool, Set<Seq<char>>)
    decreases n,
{
    if n <= 0 {
        (false, Set::empty())
    } else {
        step(block_after(lines, n - 1), spec_parse_directive(lines[n - 1]))
    }
}

/// Whether a rule list selects `rule`: an empty list selects every rule.
pub open spec fn selects(rs: Seq<Seq<char>>, rule: Seq<char>) -> bool {
    rs.len() == 0 || rs.contains(rule)
}

/// Whether `d` is a directive of `kind` that selects `rule`.
pub open spec fn names_rule(
    d: Option<(DirectiveKind, Seq<Seq<char>>)>,
    kind: DirectiveKind,
    rule: Seq<char>,
) -> bool {
    match d {
        Some((k, rs)) => k == kind && selects(rs, rule),
        None => false,
    }
}

/// Whether a diagnostic of `rule` at 1-based `line` of `source` is suppressed: by the block
/// state after that line, by a `disable-line` on it, or by a `disable-next-line` just before.
pub open spec fn line_suppressed(source: Seq<char>, rule: Seq<char>, line: int) -> bool {
    let lines = spec_lines(source);
    let i = line - 1;
    ||| (0 <= i < lines.len() && (block_after(lines, i + 1).0 || block_after(
        lines,
        i + 1,
    ).1.contains(rule)))
    ||| (0 <= i < lines.len() && names_rule(
        spec_parse_directive(lines[i]),
        DirectiveKind::DisableLine,
        rule,
    ))
    ||| (1 <= i <= lines.len() && names_rule(
        spec_parse_directive(lines[i - 1]),
        DirectiveKind::DisableNextLine,
        rule,
    ))
}

/// Whether `v` holds a string equal to `s`.
fn contains_str(v: &Vec<String>, s: &str) -> (r: bool)
    ensures
        r == strings(v@).contains(s@),
{
    let mut i: usize = 0;
    while i < v.len()
        invariant
            i <= v@.len(),
            forall|j: int| 0 <= j < i ==> v@[j]@ != s@,
        decreases v@.len() - i,
    {
        if str_eq(v[i].as_str(), s) {
            proof {
                assert(strings(v@)[i as int] == s@);
            }
            return true;
        }
        i = i + 1;
    }
    proof {
        if strings(v@).contains(s@) {
            let j = choose|j: int| 0 <= j < strings(v@).len() && strings(v@)[j] == s@;
            assert(v@[j]@ == s@);
        }
    }
    false
}

/// A copy of a vector of strings.
fn copy_strings(v: &Vec<String>) -> (r: Vec<String>)
    ensures
        strings(r@) == strings(v@),
{
    let mut out: Vec<String> = Vec::new();
    let mut i: usize = 0;
    while i < v.len()
        invariant
            i <= v@.len(),
            strings(out@) == strings(v@).take(i as int),
        decreases v@.len() - i,
    {
        let c = v[i].clone();
        let ghost before = strings(out@);
        out.push(c);
        proof {
            assert(strings(out@) =~= before.push(c@));
            assert(strings(v@).take(i + 1) =~= strings(v@).take(i as int).push(v@[i as int]@));
        }
        i = i + 1;
    }
    proof {
        assert(strings(v@).take(v@.len() as int) =~= strings(v@));
    }
    out
}

fn kind_of(name: &Vec<char>) -> (r: Option<DirectiveKind>)
    ensures
        r == directive_kind(name@),
{
    let disable = chars_of("mq-content-lint-disable");
    let enable = chars_of("mq-content-lint-enable");
    let disable_line = chars_of("mq-content-lint-disable-line");
    let disable_next = chars_of("mq-content-lint-disable-next-line");
    if crate::text::chars_eq(name, &disable) {
        Some(DirectiveKind::Disable)
    } else if crate::text::chars_eq(name, &enable) {
        Some(DirectiveKind::Enable)
    } else if crate::text::chars_eq(name, &disable_line) {
        Some(DirectiveKind::DisableLine)
    } else if crate::text::chars_eq(name, &disable_next) {
        Some(DirectiveKind::DisableNextLine)
    } else {
        None
    }
}

/// The rule ids of a comma-separated list: each piece trimmed, empty pieces dropped.
fn parse_rule_list(rest: &Vec<char>) -> (r: Vec<String>)
    ensures
        strings(r@) == rule_list(split_at_char(rest@, ',')),
{
    let pieces = split_char(rest, ',');
    let mut out: Vec<String> = Vec::new();
    let mut i: usize = 0;
    proof {
        assert(lines_view(pieces@).take(0) =~= Seq::<Seq<char>>::empty());
    }
    while i < pieces.len()
        invariant
            i <= pieces@.len(),
            lines_view(pieces@) == split_at_char(rest@, ','),
            strings(out@) == rule_list(lines_view(pieces@).take(i as int)),
        decreases pieces@.len() - i,
    {
        let t = trim_chars(&pieces[i]);
        let ghost p = lines_view(pieces@);
        proof {
            assert(p.take(i + 1).drop_last() =~= p.take(i as int));
            assert(p.take(i + 1).last() == pieces@[i as int]@);
        }
        if t.len() > 0 {
            let ghost before = strings(out@);
            out.push(string_of(&t));
            proof {
                assert(strings(out@) =~= before.push(t@));
            }
        }
        i = i + 1;
    }
    proof {
        assert(lines_view(pieces@).take(pieces@.len() as int) =~= lines_view(pieces@));
    }
    out
}

/// Parses a directive out of `line` if the entire trimmed line is one of the four recognized
/// HTML comments; anything else is not a directive.
pub fn parse_directive(line: &Vec<char>) -> (r: Option<Directive>)
    ensures
        directive_view(r) == spec_parse_directive(line@),
{
    proof {
        reveal_strlit("<!--");
        reveal_strlit("-->");
    }
    let t = trim_chars(line);
    if !has_prefix_at(&t, 0, "<!--") {
        proof {
            assert(t@.skip(0) =~= t@);
        }
        return None;
    }
    proof {
        assert(t@.skip(0) =~= t@);
    }
    let u = copy_range(&t, 4, t.len());
    proof {
        assert(u@ =~= t@.skip(4));
    }
    if !has_suffix_at(&u, u.len(), "-->") {
        proof {
            assert(u@.take(u@.len() as int) =~= u@);
        }
        return None;
    }
    proof {
        assert(u@.take(u@.len() as int) =~= u@);
    }
    let body = copy_range(&u, 0, u.len() - 3);
    let inner = trim_chars(&body);
    proof {
        assert(body@ =~= u@.take(u@.len() - 3));
        assert(comment_body(line@) == Some(inner@));
    }
    let k = run_from(&inner, 0, CharClass::NotWhitespace);
    proof {
        assert(inner@.skip(0) =~= inner@);
    }
    let (name, rest) = if k < inner.len() {
        (copy_range(&inner, 0, k), copy_range(&inner, k + 1, inner.len()))
    } else {
        (copy_range(&inner, 0, inner.len()), Vec::new())
    };
    proof {
        if k < inner@.len() {
            assert(name@ =~= inner@.take(k as int));
            assert(rest@ =~= inner@.skip(k + 1));
        } else {
            assert(name@ =~= inner@);
            assert(rest@ =~= Seq::<char>::empty());
        }
        assert(name@ == directive_name(inner@));
        assert(rest@ == directive_rest(inner@));
    }
    match kind_of(&name) {
        None => None,
        Some(kind) => {
            let rules = parse_rule_list(&rest);
            Some(Directive { kind, rules })
        },
    }
}

/// The block state after some lines: whether every rule is disabled, and which rules are
/// disabled by name.
pub struct BlockState {
    pub all: bool,
    pub rules: Vec<String>,
}

impl BlockState {
    pub open spec fn spec_view(&self) -> (bool, Set<Seq<char>>) {
        (self.all, strings(self.rules@).to_set())
    }
}

/// Applies one line's directive to the block state.
fn apply(st: &BlockState, d: &Option<Directive>) -> (r: BlockState)
    ensures
        r.spec_view() == step(st.spec_view(), directive_view(*d)),
{
    match d {
        Some(dir) => {
            match dir.kind {
                DirectiveKind::Disable => {
                    if dir.rules.len() == 0 {
                        let r = BlockState { all: true, rules: copy_strings(&st.rules) };
                        proof {
                            assert(r.spec_view().1 =~= st.spec_view().1);
                        }
                        r
                    } else {
                        let mut rules = copy_strings(&st.rules);
                        let mut i: usize = 0;
                        while i < dir.rules.len()
                            invariant
                                i <= dir.rules@.len(),
                                strings(rules@).to_set() == strings(st.rules@).to_set().union(
                                    strings(dir.rules@).take(i as int).to_set(),
                                ),
                            decreases dir.rules@.len() - i,
                        {
                            let c = dir.rules[i].clone();
                            let ghost before = strings(rules@);
                            rules.push(c);
                            proof {
                                let di = strings(dir.rules@).take(i as int);
                                let dn = strings(dir.rules@).take(i + 1);
                                let base = strings(st.rules@).to_set();
                                assert(strings(rules@) =~= before.push(c@));
                                assert(dn =~= di.push(c@));
                                assert forall|x: Seq<char>|
                                    strings(rules@).to_set().contains(x) <==> base.union(
                                        dn.to_set(),
                                    ).contains(x) by {
                                    assert(before.to_set().contains(x) == before.contains(x));
                                    assert(di.to_set().contains(x) == di.contains(x));
                                    vstd::seq_lib::lemma_seq_contains_after_push(before, c@, x);
                                    vstd::seq_lib::lemma_seq_contains_after_push(di, c@, x);
                                    assert(before.push(c@).contains(x) == (c@ == x
                                        || before.contains(x)));
                                    assert(di.push(c@).contains(x) == (c@ == x || di.contains(
                                        x,
                                    )));
                                    assert(strings(rules@).to_set().contains(x) == strings(
                                        rules@,
                                    ).contains(x));
                                    assert(dn.to_set().contains(x) == dn.contains(x));
                                }
                                assert(strings(rules@).to_set() =~= base.union(dn.to_set()));
                            }
                            i = i + 1;
                        }
                        proof {
                            assert(strings(dir.rules@).take(dir.rules@.len() as int) =~= strings(
                                dir.rules@,
                            ));
                        }
                        BlockState { all: st.all, rules }
                    }
                },
                DirectiveKind::Enable => {
                    if dir.rules.len() == 0 {
                        let r = BlockState { all: false, rules: Vec::new() };
                        proof {
                            assert(r.spec_view().1 =~= Set::<Seq<char>>::empty());
                        }
                        r
                    } else {
                        let mut rules: Vec<String> = Vec::new();
                        let mut i: usize = 0;
                        while i < st.rules.len()
                            invariant
                                i <= st.rules@.len(),
                                strings(rules@).to_set() == strings(st.rules@).take(
                                    i as int,
                                ).to_set().difference(strings(dir.rules@).to_set()),
                            decreases st.rules@.len() - i,
                        {
                            let ghost before = strings(rules@);
                            proof {
                                assert(strings(st.rules@).take(i + 1) =~= strings(
                                    st.rules@,
                                ).take(i as int).push(st.rules@[i as int]@));
                            }
                            if !contains_str(&dir.rules, st.rules[i].as_str()) {
                                let c = st.rules[i].clone();
                                rules.push(c);
                                proof {
                                    assert(strings(rules@) =~= before.push(c@));
                                }
                            }
                            proof {
                                let si = strings(st.rules@).take(i as int);
                                let sn = strings(st.rules@).take(i + 1);
                                let ds = strings(dir.rules@).to_set();
                                assert forall|x: Seq<char>|
                                    strings(rules@).to_set().contains(x) <==> sn.to_set().difference(
                                        ds,
                                    ).contains(x) by {
                                    let e = st.rules@[i as int]@;
                                    assert(before.to_set().contains(x) == before.contains(x));
                                    assert(si.to_set().contains(x) == si.contains(x));
                                    vstd::seq_lib::lemma_seq_contains_after_push(before, e, x);
                                    vstd::seq_lib::lemma_seq_contains_after_push(si, e, x);
                                    assert(before.push(e).contains(x) == (e == x || before.contains(
                                        x,
                                    )));
                                    assert(si.push(e).contains(x) == (e == x || si.contains(x)));
                                    assert(strings(rules@).to_set().contains(x) == strings(
                                        rules@,
                                    ).contains(x));
                                    assert(sn.to_set().contains(x) == sn.contains(x));
                                    assert(ds.contains(e) == strings(dir.rules@).contains(e));
                                }
                                assert(strings(rules@).to_set() =~= sn.to_set().difference(ds));
                            }
                            i = i + 1;
                        }
                        proof {
                            assert(strings(st.rules@).take(st.rules@.len() as int) =~= strings(
                                st.rules@,
                            ));
                        }
                        BlockState { all: st.all, rules }
                    }
                },
                _ => {
                    let r = BlockState { all: st.all, rules: copy_strings(&st.rules) };
                    proof {
                        assert(r.spec_view().1 =~= st.spec_view().1);
                    }
                    r
                },
            }
        },
        None => {
            let r = BlockState { all: st.all, rules: copy_strings(&st.rules) };
            proof {
                assert(r.spec_view().1 =~= st.spec_view().1);
            }
            r
        },
    }
}

/// Per-line suppression state derived from a document's inline disable comments.
pub struct DisabledLines {
    source: Ghost<Seq<char>>,
    directives: Vec<Option<Directive>>,
    blocks: Vec<BlockState>,
}

impl DisabledLines {
    /// The source text the state was scanned from.
    pub closed spec fn source(&self) -> Seq<char> {
        self.source@
    }

    #[verifier::type_invariant]
    spec fn wf(&self) -> bool {
        let lines = spec_lines(self.source@);
        &&& self.directives@.len() == lines.len()
        &&& self.blocks@.len() == lines.len()
        &&& forall|i: int|
            0 <= i < lines.len() ==> directive_view(#[trigger] self.directives@[i])
                == spec_parse_directive(lines[i])
        &&& forall|i: int|
            0 <= i < lines.len() ==> (#[trigger] self.blocks@[i]).spec_view() == block_after(
                lines,
                i + 1,
            )
    }

    /// Whether a diagnostic from `rule_id`, reported at `line` (1-based), is suppressed.
    pub fn suppresses(&self, rule_id: &str, line: usize) -> (r: bool)
        ensures
            r == line_suppressed(self.source(), rule_id@, line as int),
    {
        proof {
            use_type_invariant(self);
        }
        if line == 0 {
            return false;
        }
        let i = line - 1;
        let n = self.blocks.len();
        let ghost lines = spec_lines(self.source@);
        let in_block = if i < n {
            let b = &self.blocks[i];
            proof {
                assert(b.spec_view() == block_after(lines, i + 1));
            }
            b.all || contains_str(&b.rules, rule_id)
        } else {
            false
        };
        let on_line = if i < n {
            proof {
                assert(directive_view(self.directives@[i as int]) == spec_parse_directive(
                    lines[i as int],
                ));
            }
            match &self.directives[i] {
                Some(d) => match d.kind {
                    DirectiveKind::DisableLine => d.rules.len() == 0 || contains_str(
                        &d.rules,
                        rule_id,
                    ),
                    _ => false,
                },
                None => false,
            }
        } else {
            false
        };
        let from_previous = if 1 <= i && i <= n {
            proof {
                assert(directive_view(self.directives@[i - 1]) == spec_parse_directive(
                    lines[i - 1],
                ));
            }
            match &self.directives[i - 1] {
                Some(d) => match d.kind {
                    DirectiveKind::DisableNextLine => d.rules.len() == 0 || contains_str(
                        &d.rules,
                        rule_id,
                    ),
                    _ => false,
                },
                None => false,
            }
        } else {
            false
        };
        proof {
            if i < n {
                let b = self.blocks@[i as int];
                assert(b.spec_view().1.contains(rule_id@) == strings(b.rules@).contains(
                    rule_id@,
                ));
            }
        }
        in_block || on_line || from_previous
    }
}

/// Scans `source` for disable/enable directives, returning the per-line suppression state they
/// describe.
pub fn scan(source: &str) -> (r: DisabledLines)
    ensures
        r.source() == source@,
{
    let chars = chars_of(source);
    let lines = split_lines(&chars);
    let ghost ls = spec_lines(source@);
    let mut directives: Vec<Option<Directive>> = Vec::new();
    let mut blocks: Vec<BlockState> = Vec::new();
    let mut state = BlockState { all: false, rules: Vec::new() };
    let mut i: usize = 0;
    proof {
        assert(state.spec_view().1 =~= Set::<Seq<char>>::empty());
    }
    while i < lines.len()
        invariant
            lines_view(lines@) == ls,
            ls == spec_lines(source@),
            i <= lines@.len(),
            directives@.len() == i,
            blocks@.len() == i,
            state.spec_view() == block_after(ls, i as int),
            forall|j: int|
                0 <= j < i ==> directive_view(#[trigger] directives@[j]) == spec_parse_directive(
                    ls[j],
                ),
            forall|j: int|
                0 <= j < i ==> (#[trigger] blocks@[j]).spec_view() == block_after(ls, j + 1),
        decreases lines@.len() - i,
    {
        let d = parse_directive(&lines[i]);
        proof {
            assert(lines@[i as int]@ == ls[i as int]);
        }
        let next = apply(&state, &d);
        let copy = BlockState { all: next.all, rules: copy_strings(&next.rules) };
        proof {
            assert(copy.spec_view().1 =~= next.spec_view().1);
        }
        directives.push(d);
        blocks.push(copy);
        state = next;
        i = i + 1;
    }
    DisabledLines { source: Ghost(source@), directives, blocks }
}

} // verus!
