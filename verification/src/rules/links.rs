//! Rules about references, fragments and inline HTML: unused reference definitions, link
//! fragments that match no heading, and HTML elements that are not allowed.
use crate::config::{as_text_list, LintConfig};
use crate::disable_comments::strings;
use crate::doc::{DocNode, Document, NodeKind};
use crate::message::{LintMessage, RuleId};
use crate::rules::headings::heading_indices;
use crate::rules::{concat_upto, finding_of, spec_default_severity};
use crate::text::{
    alphanumeric, char_lowered, char_to_lowercase, chars_eq, chars_of, count_while, dec,
    fmt_usize, is_alphanumeric, lowercased, spec_lines, str_eq, string_of, to_lowercase,
    CharClass,
};
use crate::{diag_views, DiagView, Diagnostic, Fix, Range};
use vstd::prelude::*;

verus! {

// ---------------------------------------------------------------------------------------------
// link_image_reference_definitions

/// Whether `n` is a link or image reference with identifier `ident` (in lowercase).
pub open spec fn refers_to(n: DocNode, ident: Seq<char>) -> bool {
    (n.kind == NodeKind::LinkRef || n.kind == NodeKind::ImageRef) && lowercased(n.ident@) == ident
}

/// Whether one of the first `k` nodes is a reference with identifier `ident`.
pub open spec fn used_before(nodes: Seq<DocNode>, k: int, ident: Seq<char>) -> bool {
    exists|m: int| 0 <= m < k && refers_to(#[trigger] nodes[m], ident)
}

/// Whether a link or image reference of `nodes` uses identifier `ident` (compared in lowercase).
pub open spec fn reference_used(nodes: Seq<DocNode>, ident: Seq<char>) -> bool {
    used_before(nodes, nodes.len() as int, ident)
}

/// The text of an unused-definition finding.
pub open spec fn unused_definition_text(label: Seq<char>) -> Seq<char> {
    "reference definition `["@ + label + "]` is never used"@
}

/// The finding for node `n`: a definition whose identifier no reference uses. The fix deletes
/// its lines (up to the end of the document).
pub open spec fn unused_definition_finding(nodes: Seq<DocNode>, n: DocNode, total: int) -> Seq<DiagView> {
    if n.kind == NodeKind::Definition && !reference_used(nodes, lowercased(n.ident@)) {
        seq![
            DiagView {
                rule: RuleId::LinkImageReferenceDefinitions,
                text: unused_definition_text(
                    match n.label {
                        Some(l) => l@,
                        None => n.ident@,
                    },
                ),
                severity: spec_default_severity(RuleId::LinkImageReferenceDefinitions),
                range: n.position,
                fix: match n.position {
                    Some(p) => Some(
                        (
                            Range {
                                start_line: p.start_line,
                                start_column: 1,
                                end_line: (if p.end_line + 1 <= total + 1 {
                                    p.end_line + 1
                                } else {
                                    total + 1
                                }) as usize,
                                end_column: 1,
                            },
                            Seq::empty(),
                        ),
                    ),
                    None => None,
                },
            },
        ]
    } else {
        Seq::empty()
    }
}

pub open spec fn unused_definition_each(nodes: Seq<DocNode>, total: int) -> spec_fn(int) -> Seq<
    DiagView,
> {
    |k: int| unused_definition_finding(nodes, nodes[k], total)
}

/// One finding per reference definition that no link or image reference uses.
pub open spec fn spec_link_image_reference_definitions(nodes: Seq<DocNode>, source: Seq<char>) -> Seq<
    DiagView,
> {
    concat_upto(nodes.len() as int, unused_definition_each(nodes, spec_lines(source).len() as int))
}

/// Flags a reference definition no link or image reference uses; the fix deletes it.
pub fn link_image_reference_definitions(doc: &Document, source: &str) -> (r: Vec<Diagnostic>)
    requires
        source@.len() < usize::MAX,
    ensures
        diag_views(r@) == spec_link_image_reference_definitions(doc.nodes@, source@),
{
    let nodes = &doc.nodes;
    let lines = crate::rules::lines::source_lines(source);
    proof {
        crate::rules::lines::lemma_source_lines(source@);
    }
    let total = lines.len();
    let mut used: Vec<String> = Vec::new();
    let mut k: usize = 0;
    while k < nodes.len()
        invariant
            k <= nodes@.len(),
            forall|x: Seq<char>|
                #[trigger] strings(used@).contains(x) <==> used_before(
                    nodes@,
                    k as int,
                    x,
                ),
        decreases nodes@.len() - k,
    {
        let node = &nodes[k];
        let ghost before = strings(used@);
        if node.kind == NodeKind::LinkRef || node.kind == NodeKind::ImageRef {
            let low = to_lowercase(node.ident.as_str());
            used.push(low);
            proof {
                assert(strings(used@) =~= before.push(low@));
                assert forall|x: Seq<char>|
                    #[trigger] strings(used@).contains(x) <==> used_before(
                        nodes@,
                        k + 1,
                        x,
                    ) by {
                    vstd::seq_lib::lemma_seq_contains_after_push(before, low@, x);
                    assert(nodes@[k as int] == *node);
                    if used_before(nodes@, k + 1, x) && !used_before(nodes@, k as int, x) {
                        let m = choose|m: int| 0 <= m < k + 1 && refers_to(#[trigger] nodes@[m], x);
                        assert(m == k);
                    }
                    if x == low@ {
                        assert(refers_to(nodes@[k as int], x));
                    }
                }
            }
        } else {
            proof {
                assert forall|x: Seq<char>|
                    #[trigger] strings(used@).contains(x) <==> used_before(
                        nodes@,
                        k + 1,
                        x,
                    ) by {
                    if used_before(nodes@, k + 1, x) {
                        let m = choose|m: int| 0 <= m < k + 1 && refers_to(#[trigger] nodes@[m], x);
                        assert(m != k);
                    }
                }
            }
        }
        k = k + 1;
    }
    let mut out: Vec<Diagnostic> = Vec::new();
    let mut k: usize = 0;
    proof {
        assert(diag_views(out@) =~= Seq::<DiagView>::empty());
    }
    while k < nodes.len()
        invariant
            k <= nodes@.len(),
            total == spec_lines(source@).len(),
            total <= source@.len(),
            source@.len() < usize::MAX,
            forall|x: Seq<char>|
                #[trigger] strings(used@).contains(x) <==> reference_used(nodes@, x),
            diag_views(out@) == concat_upto(k as int, unused_definition_each(nodes@, total as int)),
        decreases nodes@.len() - k,
    {
        let ghost before = diag_views(out@);
        let node = &nodes[k];
        if node.kind == NodeKind::Definition {
            let low = to_lowercase(node.ident.as_str());
            let mut found = false;
            let mut q: usize = 0;
            while q < used.len()
                invariant
                    q <= used@.len(),
                    found == exists|j: int| 0 <= j < q && used@[j]@ == low@,
                decreases used@.len() - q,
            {
                let same = str_eq(used[q].as_str(), low.as_str());
                found = found || same;
                q = q + 1;
            }
            proof {
                let us = strings(used@);
                assert(low@ == lowercased(node.ident@));
                if found {
                    let j = choose|j: int| 0 <= j < used@.len() && used@[j]@ == low@;
                    assert(us[j] == low@);
                } else {
                    assert forall|j: int| 0 <= j < us.len() implies us[j] != low@ by {
                        assert(us[j] == used@[j]@);
                    }
                }
                assert(us.contains(low@) == found);
                assert(reference_used(nodes@, lowercased(node.ident@)) == found);
            }
            if !found {
                let label = match &node.label {
                    Some(l) => l.clone(),
                    None => node.ident.clone(),
                };
                let fix = match node.position {
                    Some(p) => {
                        let end_line = if p.end_line < total {
                            p.end_line + 1
                        } else {
                            total + 1
                        };
                        let range = Range { start_line: p.start_line, start_column: 1, end_line, end_column: 1 };
                        let f = Fix::new(range, "");
                        proof {
                            reveal_strlit("");
                            assert(f.replacement@ =~= Seq::<char>::empty());
                        }
                        Some(f)
                    },
                    None => None,
                };
                out.push(
                    finding_of(LintMessage::LinkImageReferenceDefinitions { label }, node.position, fix),
                );
            }
        }
        proof {
            assert(diag_views(out@) =~= before + unused_definition_finding(nodes@, *node, total as int));
        }
        k = k + 1;
    }
    out
}

// ---------------------------------------------------------------------------------------------
// link_fragments

/// What one character of heading text contributes to its anchor slug: an alphanumeric
/// character in lowercase, a space, `-` or `_` as `-`, anything else nothing.
pub open spec fn slug_piece(c: char) -> Seq<char> {
    if alphanumeric(c) {
        char_lowered(c)
    } else if c == ' ' || c == '-' || c == '_' {
        seq!['-']
    } else {
        Seq::empty()
    }
}

/// The anchor slug of heading text `s`.
pub open spec fn slug(s: Seq<char>) -> Seq<char>
    decreases s.len(),
{
    if s.len() == 0 {
        Seq::empty()
    } else {
        slug(s.drop_last()) + slug_piece(s.last())
    }
}

/// How many of the first `n` slugs equal `x`.
pub open spec fn count_equal(slugs: Seq<Seq<char>>, n: int, x: Seq<char>) -> nat
    decreases n,
{
    if n <= 0 {
        0
    } else {
        count_equal(slugs, n - 1, x) + if slugs[n - 1] == x {
            1nat
        } else {
            0nat
        }
    }
}

/// The base slugs of the document's headings, in document order.
pub open spec fn base_slugs(nodes: Seq<DocNode>) -> Seq<Seq<char>> {
    heading_indices(nodes).map_values(|k: usize| slug(nodes[k as int].value@))
}

/// The anchor of the `i`-th heading: its slug, with `-n` appended for the `n`-th repeat.
pub open spec fn anchor(slugs: Seq<Seq<char>>, i: int) -> Seq<char> {
    let c = count_equal(slugs, i, slugs[i]);
    if c == 0 {
        slugs[i]
    } else {
        slugs[i] + seq!['-'] + dec(c)
    }
}

/// Whether some heading's anchor is `fragment`.
pub open spec fn anchored(nodes: Seq<DocNode>, fragment: Seq<char>) -> bool {
    let slugs = base_slugs(nodes);
    exists|i: int| 0 <= i < slugs.len() && #[trigger] anchor(slugs, i) == fragment
}

/// The text of a `link_fragments` finding.
pub open spec fn fragment_text(fragment: Seq<char>) -> Seq<char> {
    "link fragment `#"@ + fragment + "` does not match any heading in this document"@
}

pub open spec fn fragment_finding(nodes: Seq<DocNode>, n: DocNode) -> Seq<DiagView> {
    if n.kind == NodeKind::Link && n.url@.len() > 1 && n.url@[0] == '#' && !anchored(
        nodes,
        n.url@.skip(1),
    ) {
        seq![
            DiagView {
                rule: RuleId::LinkFragments,
                text: fragment_text(n.url@.skip(1)),
                severity: spec_default_severity(RuleId::LinkFragments),
                range: n.position,
                fix: None,
            },
        ]
    } else {
        Seq::empty()
    }
}

pub open spec fn fragment_each(nodes: Seq<DocNode>) -> spec_fn(int) -> Seq<DiagView> {
    |k: int| fragment_finding(nodes, nodes[k])
}

/// One finding per link to a `#fragment` that no heading's anchor matches.
pub open spec fn spec_link_fragments(nodes: Seq<DocNode>) -> Seq<DiagView> {
    concat_upto(nodes.len() as int, fragment_each(nodes))
}

fn slug_exec(text: &str) -> (r: Vec<char>)
    ensures
        r@ == slug(text@),
{
    let cs = chars_of(text);
    let mut out: Vec<char> = Vec::new();
    let mut i: usize = 0;
    while i < cs.len()
        invariant
            i <= cs@.len(),
            cs@ == text@,
            out@ == slug(cs@.take(i as int)),
        decreases cs@.len() - i,
    {
        let c = cs[i];
        let ghost before = out@;
        if is_alphanumeric(c) {
            let low = chars_of(char_to_lowercase(c).as_str());
            let mut q: usize = 0;
            while q < low.len()
                invariant
                    q <= low@.len(),
                    out@ == before + low@.take(q as int),
                decreases low@.len() - q,
            {
                out.push(low[q]);
                proof {
                    assert(out@ =~= before + low@.take(q + 1));
                }
                q = q + 1;
            }
            proof {
                assert(low@.take(low@.len() as int) =~= low@);
            }
        } else if c == ' ' || c == '-' || c == '_' {
            out.push('-');
        }
        proof {
            assert(cs@.take(i + 1).drop_last() =~= cs@.take(i as int));
            assert(out@ =~= before + slug_piece(c));
        }
        i = i + 1;
    }
    proof {
        assert(cs@.take(cs@.len() as int) =~= cs@);
    }
    out
}

/// Flags a link to a `#fragment` that no heading's anchor matches.
pub fn link_fragments(doc: &Document) -> (r: Vec<Diagnostic>)
    ensures
        diag_views(r@) == spec_link_fragments(doc.nodes@),
{
    let nodes = &doc.nodes;
    let mut slugs: Vec<Vec<char>> = Vec::new();
    let mut k: usize = 0;
    let ghost hi = heading_indices(nodes@);
    while k < nodes.len()
        invariant
            k <= nodes@.len(),
            crate::text::lines_view(slugs@) == heading_indices(nodes@.take(k as int)).map_values(
                |m: usize| slug(nodes@[m as int].value@),
            ),
        decreases nodes@.len() - k,
    {
        proof {
            assert(nodes@.take(k + 1).drop_last() =~= nodes@.take(k as int));
        }
        let ghost before = crate::text::lines_view(slugs@);
        if nodes[k].kind == NodeKind::Heading {
            let s = slug_exec(nodes[k].value.as_str());
            slugs.push(s);
            proof {
                assert(crate::text::lines_view(slugs@) =~= before.push(s@));
            }
        }
        proof {
            let hk = heading_indices(nodes@.take(k as int));
            let hk1 = heading_indices(nodes@.take(k + 1));
            assert forall|m: int| 0 <= m < hk.len() implies #[trigger] hk[m] < k by {
                lemma_heading_indices_bound(nodes@.take(k as int), m);
            }
            assert(hk.map_values(|m: usize| slug(nodes@.take(k + 1)[m as int].value@)) =~= hk.map_values(
                |m: usize| slug(nodes@[m as int].value@),
            ));
            assert(hk1.map_values(|m: usize| slug(nodes@[m as int].value@)) =~= crate::text::lines_view(
                slugs@,
            ));
        }
        k = k + 1;
    }
    proof {
        assert(nodes@.take(nodes@.len() as int) =~= nodes@);
    }
    let ghost sl = base_slugs(nodes@);
    let mut anchors: Vec<Vec<char>> = Vec::new();
    let mut i: usize = 0;
    while i < slugs.len()
        invariant
            i <= slugs@.len(),
            crate::text::lines_view(slugs@) == sl,
            crate::text::lines_view(anchors@) == Seq::new(i as nat, |j: int| anchor(sl, j)),
        decreases slugs@.len() - i,
    {
        let mut count: usize = 0;
        let mut j: usize = 0;
        while j < i
            invariant
                j <= i < slugs@.len(),
                crate::text::lines_view(slugs@) == sl,
                count == count_equal(sl, j as int, sl[i as int]),
                count <= j,
            decreases i - j,
        {
            proof {
                assert(sl[j as int] == slugs@[j as int]@);
                assert(sl[i as int] == slugs@[i as int]@);
            }
            if chars_eq(&slugs[j], &slugs[i]) {
                count = count + 1;
            }
            j = j + 1;
        }
        let mut a = crate::text::copy_range(&slugs[i], 0, slugs[i].len());
        proof {
            assert(sl[i as int] == slugs@[i as int]@);
            assert(a@ =~= sl[i as int]);
        }
        if count > 0 {
            a.push('-');
            let digits = chars_of(fmt_usize(count).as_str());
            let mut q: usize = 0;
            let ghost base = a@;
            while q < digits.len()
                invariant
                    q <= digits@.len(),
                    a@ == base + digits@.take(q as int),
                decreases digits@.len() - q,
            {
                a.push(digits[q]);
                proof {
                    assert(a@ =~= base + digits@.take(q + 1));
                }
                q = q + 1;
            }
            proof {
                assert(digits@.take(digits@.len() as int) =~= digits@);
            }
        }
        proof {
            assert(count == count_equal(sl, i as int, sl[i as int]));
            if count > 0 {
                assert(a@ =~= sl[i as int] + seq!['-'] + dec(count as nat));
            }
            assert(a@ == anchor(sl, i as int));
        }
        let ghost before = crate::text::lines_view(anchors@);
        anchors.push(a);
        proof {
            assert(crate::text::lines_view(anchors@) =~= before.push(a@));
            assert(crate::text::lines_view(anchors@) =~= Seq::new((i + 1) as nat, |j: int| anchor(sl, j)));
        }
        i = i + 1;
    }
    let mut out: Vec<Diagnostic> = Vec::new();
    let mut k: usize = 0;
    proof {
        assert(diag_views(out@) =~= Seq::<DiagView>::empty());
    }
    while k < nodes.len()
        invariant
            k <= nodes@.len(),
            sl == base_slugs(nodes@),
            crate::text::lines_view(anchors@) == Seq::new(sl.len(), |j: int| anchor(sl, j)),
            diag_views(out@) == concat_upto(k as int, fragment_each(nodes@)),
        decreases nodes@.len() - k,
    {
        let ghost before = diag_views(out@);
        let node = &nodes[k];
        if node.kind == NodeKind::Link {
            let url = chars_of(node.url.as_str());
            if url.len() > 1 && url[0] == '#' {
                let fragment = crate::text::copy_range(&url, 1, url.len());
                let mut matched = false;
                let mut q: usize = 0;
                while q < anchors.len()
                    invariant
                        q <= anchors@.len(),
                        crate::text::lines_view(anchors@) == Seq::new(sl.len(), |j: int| anchor(sl, j)),
                        matched == exists|j: int| 0 <= j < q && anchor(sl, j) == fragment@,
                    decreases anchors@.len() - q,
                {
                    proof {
                        let lv = crate::text::lines_view(anchors@);
                        assert(lv.len() == anchors@.len());
                        assert(lv[q as int] == anchors@[q as int]@);
                        assert(Seq::new(sl.len(), |j: int| anchor(sl, j))[q as int] == anchor(sl, q as int));
                        assert(anchors@[q as int]@ == anchor(sl, q as int));
                    }
                    let same = chars_eq(&anchors[q], &fragment);
                    matched = matched || same;
                    q = q + 1;
                }
                proof {
                    assert(fragment@ =~= node.url@.skip(1));
                    assert(crate::text::lines_view(anchors@).len() == anchors@.len());
                    assert(anchors@.len() == sl.len());
                    assert(matched == anchored(nodes@, fragment@));
                }
                if !matched {
                    out.push(
                        finding_of(
                            LintMessage::LinkFragments { fragment: string_of(&fragment) },
                            node.position,
                            None,
                        ),
                    );
                }
            }
        }
        proof {
            assert(diag_views(out@) =~= before + fragment_finding(nodes@, *node));
        }
        k = k + 1;
    }
    out
}

proof fn lemma_heading_indices_bound(nodes: Seq<DocNode>, m: int)
    requires
        0 <= m < heading_indices(nodes).len(),
    ensures
        heading_indices(nodes)[m] < nodes.len(),
    decreases nodes.len(),
{
    if nodes.len() > 0 {
        let r = heading_indices(nodes.drop_last());
        if m < r.len() {
            lemma_heading_indices_bound(nodes.drop_last(), m);
        }
    }
}

// ---------------------------------------------------------------------------------------------
// no_inline_html

/// The number of leading characters of `s` that are alphanumeric or `-`.
pub open spec fn name_run(s: Seq<char>) -> nat
    decreases s.len(),
{
    if s.len() > 0 && (alphanumeric(s[0]) || s[0] == '-') {
        1 + name_run(s.drop_first())
    } else {
        0
    }
}

/// The element name of raw HTML `h`, in lowercase: what follows its leading `<`s and `/`s, up
/// to the first character that is neither alphanumeric nor `-`; none if that is empty.
pub open spec fn tag_name(h: Seq<char>) -> Option<Seq<char>> {
    let t = h.skip(count_while(h, CharClass::Exactly('<')) as int);
    let u = t.skip(count_while(t, CharClass::Exactly('/')) as int);
    let n = name_run(u) as int;
    if n == 0 {
        None
    } else {
        Some(lowercased(u.take(n)))
    }
}

/// The code of `c` with ASCII capitals lowered.
pub open spec fn ascii_lower(c: char) -> u32 {
    if 'A' <= c <= 'Z' {
        (c as u32 + 32) as u32
    } else {
        c as u32
    }
}

/// Whether `a` and `b` are equal ignoring ASCII case (`str::eq_ignore_ascii_case`).
pub open spec fn eq_ignore_ascii_case(a: Seq<char>, b: Seq<char>) -> bool {
    a.len() == b.len() && forall|i: int| 0 <= i < a.len() ==> ascii_lower(#[trigger] a[i]) == ascii_lower(b[i])
}

/// The finding for node `n`: an HTML element whose name no entry of `allowed` matches.
pub open spec fn html_finding(n: DocNode, allowed: Seq<Seq<char>>) -> Seq<DiagView> {
    if n.kind == NodeKind::Html {
        match tag_name(n.value@) {
            Some(tag) => if exists|j: int| 0 <= j < allowed.len() && eq_ignore_ascii_case(#[trigger] allowed[j], tag) {
                Seq::empty()
            } else {
                seq![
                    DiagView {
                        rule: RuleId::NoInlineHtml,
                        text: "inline HTML element `<"@ + tag + ">`"@,
                        severity: spec_default_severity(RuleId::NoInlineHtml),
                        range: n.position,
                        fix: None,
                    },
                ]
            },
            None => Seq::empty(),
        }
    } else {
        Seq::empty()
    }
}

pub open spec fn html_each(nodes: Seq<DocNode>, allowed: Seq<Seq<char>>) -> spec_fn(int) -> Seq<DiagView> {
    |k: int| html_finding(nodes[k], allowed)
}

/// One finding per raw HTML element not named in `allowed`.
pub open spec fn spec_no_inline_html(nodes: Seq<DocNode>, allowed: Seq<Seq<char>>) -> Seq<DiagView> {
    concat_upto(nodes.len() as int, html_each(nodes, allowed))
}

/// The `allowed` option of `no_inline_html` (default none).
pub open spec fn allowed_html_option(config: LintConfig) -> Seq<Seq<char>> {
    match as_text_list(config.spec_rule_option(RuleId::NoInlineHtml, "allowed"@)) {
        Some(l) => l,
        None => Seq::empty(),
    }
}

fn ascii_lower_exec(c: char) -> (r: u32)
    ensures
        r == ascii_lower(c),
{
    if 'A' <= c && c <= 'Z' {
        (c as u32) + 32
    } else {
        c as u32
    }
}

fn eq_ignore_ascii_case_exec(a: &Vec<char>, b: &Vec<char>) -> (r: bool)
    ensures
        r == eq_ignore_ascii_case(a@, b@),
{
    if a.len() != b.len() {
        return false;
    }
    let mut i: usize = 0;
    while i < a.len()
        invariant
            a@.len() == b@.len(),
            i <= a@.len(),
            forall|j: int| 0 <= j < i ==> ascii_lower(#[trigger] a@[j]) == ascii_lower(b@[j]),
        decreases a@.len() - i,
    {
        if ascii_lower_exec(a[i]) != ascii_lower_exec(b[i]) {
            return false;
        }
        i = i + 1;
    }
    true
}

fn tag_name_exec(h: &str) -> (r: Option<Vec<char>>)
    ensures
        match r {
            Some(t) => tag_name(h@) == Some(t@),
            None => tag_name(h@) is None,
        },
{
    let cs = chars_of(h);
    let a = crate::text::run_from(&cs, 0, CharClass::Exactly('<'));
    proof {
        assert(cs@.skip(0) =~= cs@);
    }
    let b = crate::text::run_from(&cs, a, CharClass::Exactly('/'));
    let n = cs.len();
    assert(a + b <= n);
    let start = a + b;
    proof {
        assert(cs@.skip(a as int).skip(b as int) =~= cs@.skip(start as int));
    }
    let mut end = start;
    while end < cs.len() && (is_alphanumeric(cs[end]) || cs[end] == '-')
        invariant
            start <= end <= cs@.len(),
            forall|j: int| start <= j < end ==> (alphanumeric(#[trigger] cs@[j]) || cs@[j] == '-'),
        decreases cs@.len() - end,
    {
        end = end + 1;
    }
    proof {
        lemma_name_run_is(cs@.skip(start as int), (end - start) as int);
    }
    if end == start {
        return None;
    }
    let name = string_of(&crate::text::copy_range(&cs, start, end));
    let low = to_lowercase(name.as_str());
    proof {
        assert(cs@.skip(start as int).take((end - start) as int) =~= cs@.subrange(start as int, end as int));
    }
    Some(chars_of(low.as_str()))
}

proof fn lemma_name_run_is(s: Seq<char>, n: int)
    requires
        0 <= n <= s.len(),
        forall|j: int| 0 <= j < n ==> (alphanumeric(#[trigger] s[j]) || s[j] == '-'),
        n == s.len() || !(alphanumeric(s[n]) || s[n] == '-'),
    ensures
        name_run(s) == n,
    decreases n,
{
    if n > 0 {
        let t = s.drop_first();
        assert forall|j: int| 0 <= j < n - 1 implies (alphanumeric(#[trigger] t[j]) || t[j] == '-') by {
            assert(t[j] == s[j + 1]);
        }
        if n < s.len() {
            assert(t[n - 1] == s[n]);
        }
        lemma_name_run_is(t, n - 1);
    }
}

/// Flags raw HTML whose element name the `allowed` option does not list (compared ignoring
/// ASCII case).
pub fn no_inline_html(doc: &Document, config: &LintConfig) -> (r: Vec<Diagnostic>)
    ensures
        diag_views(r@) == spec_no_inline_html(doc.nodes@, allowed_html_option(*config)),
{
    let allowed: Vec<String> = match config.get_str_array(RuleId::NoInlineHtml, "allowed") {
        Some(l) => l,
        None => Vec::new(),
    };
    let ghost al = allowed_html_option(*config);
    proof {
        assert(strings(allowed@) =~= al);
    }
    let mut allowed_chars: Vec<Vec<char>> = Vec::new();
    let mut q: usize = 0;
    while q < allowed.len()
        invariant
            q <= allowed@.len(),
            strings(allowed@) == al,
            crate::text::lines_view(allowed_chars@) == al.take(q as int),
        decreases allowed@.len() - q,
    {
        let c = chars_of(allowed[q].as_str());
        let ghost before = crate::text::lines_view(allowed_chars@);
        allowed_chars.push(c);
        proof {
            assert(crate::text::lines_view(allowed_chars@) =~= before.push(c@));
            assert(strings(allowed@)[q as int] == allowed@[q as int]@);
            assert(al.take(q + 1) =~= al.take(q as int).push(al[q as int]));
            assert(crate::text::lines_view(allowed_chars@) =~= al.take(q + 1));
        }
        q = q + 1;
    }
    proof {
        assert(al.take(allowed@.len() as int) =~= al);
    }
    let nodes = &doc.nodes;
    let mut out: Vec<Diagnostic> = Vec::new();
    let mut k: usize = 0;
    proof {
        assert(diag_views(out@) =~= Seq::<DiagView>::empty());
    }
    while k < nodes.len()
        invariant
            k <= nodes@.len(),
            crate::text::lines_view(allowed_chars@) == al,
            diag_views(out@) == concat_upto(k as int, html_each(nodes@, al)),
        decreases nodes@.len() - k,
    {
        let ghost before = diag_views(out@);
        let node = &nodes[k];
        if node.kind == NodeKind::Html {
            match tag_name_exec(node.value.as_str()) {
                Some(tag) => {
                    let mut ok = false;
                    let mut j: usize = 0;
                    while j < allowed_chars.len()
                        invariant
                            j <= allowed_chars@.len(),
                            crate::text::lines_view(allowed_chars@) == al,
                            ok == exists|m: int| 0 <= m < j && eq_ignore_ascii_case(#[trigger] al[m], tag@),
                        decreases allowed_chars@.len() - j,
                    {
                        proof {
                            assert(al[j as int] == allowed_chars@[j as int]@);
                        }
                        let same = eq_ignore_ascii_case_exec(&allowed_chars[j], &tag);
                        ok = ok || same;
                        j = j + 1;
                    }
                    if !ok {
                        out.push(finding_of(LintMessage::NoInlineHtml { tag: string_of(&tag) }, node.position, None));
                    }
                },
                None => {},
            }
        }
        proof {
            assert(diag_views(out@) =~= before + html_finding(*node, al));
        }
        k = k + 1;
    }
    out
}

} // verus!
