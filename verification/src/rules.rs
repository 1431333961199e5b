//! Built-in lint rules.
//!
//! Each rule reads the [`Document`](crate::doc::Document) model and, where the nodes alone do
//! not preserve enough (whitespace, exact heading and list marker syntax), the raw source text.
//! A rule's contract states its diagnostics exactly, over the lines of the source
//! ([`spec_lines`](crate::text::spec_lines)) and the document's nodes.
pub mod blocks;
pub mod content;
pub mod document;
pub mod front_matter;
pub mod headings;
pub mod lines;
pub mod links;
pub mod markers;
pub mod scans;
pub mod spans;

use crate::config::LintConfig;
use crate::doc::Document;
use crate::message::{LintMessage, RuleId};
use crate::rules::blocks::{
    blanks_around_blocks, blanks_around_nodes, code_block_style, expected_code_style,
    first_line_heading, node_rule, spec_blanks_around_blocks, spec_blanks_around_nodes,
    spec_first_line_heading, spec_node_rule, BlankAround,
};
use crate::rules::headings::{
    closed_atx, heading_hierarchy_skip, heading_start_left, heading_style, no_duplicate_heading,
    no_multiple_space_atx, no_trailing_punctuation_heading, punctuation_option, spec_closed_atx,
    spec_heading_hierarchy_skip, spec_heading_start_left, spec_no_duplicate_heading,
    spec_heading_style, spec_no_multiple_space_atx, spec_no_trailing_punctuation_heading,
};
use crate::rules::lines::{
    br_spaces_option, code_blocks_option, line_length, line_limit_option, maximum_blanks_option,
    no_blanks_blockquote, no_hard_tabs, no_multiple_blanks, no_trailing_spaces,
    spec_line_length, spec_no_blanks_blockquote, spec_no_hard_tabs, spec_no_multiple_blanks,
    spec_no_trailing_spaces, tab_spaces_option,
};
use crate::rules::front_matter::{missing_front_matter_key, spec_missing_front_matter_key};
use crate::rules::links::{
    allowed_html_option, link_fragments, link_image_reference_definitions, no_inline_html,
    spec_link_fragments, spec_link_image_reference_definitions, spec_no_inline_html,
};
use crate::rules::markers::{
    code_fence_style, hr_style, list_indent, list_marker_space, marker_spaces_option,
    no_missing_space_atx, no_multiple_space_blockquote, spec_code_fence_style, spec_hr_style,
    spec_list_indent, spec_list_marker_space, spec_no_missing_space_atx,
    spec_no_multiple_space_blockquote, spec_ul_style, ul_style,
};
use crate::rules::content::{
    commands_show_output, descriptive_link_text, no_emphasis_as_heading,
    spec_commands_show_output, spec_descriptive_link_text, spec_no_emphasis_as_heading,
};
use crate::rules::scans::{scan_rule, spec_scan_rule};
use crate::rules::document::{
    single_h1, single_trailing_newline, spec_single_h1, spec_single_trailing_newline,
};
use crate::rules::spans::{
    emphasis_style, link_image_style, no_space_in_code, no_space_in_links, spec_emphasis_style,
    spec_link_image_style, spec_no_space_in_code, spec_no_space_in_links, spec_strong_style,
    strong_style,
};
use crate::{diag_views, fix_view, DiagView, Diagnostic, Fix, Range, Severity};
use vstd::prelude::*;

verus! {

/// The severity a rule reports at when the configuration does not override it.
pub open spec fn spec_default_severity(id: RuleId) -> Severity {
    match id {
        RuleId::ImageMissingAlt | RuleId::MissingFrontMatterKey => Severity::Error,
        RuleId::CommandsShowOutput | RuleId::DescriptiveLinkText | RuleId::FencedCodeLanguage
        | RuleId::FirstLineHeading | RuleId::LineLength | RuleId::LinkImageReferenceDefinitions
        | RuleId::LinkImageStyle | RuleId::NoEmphasisAsHeading => Severity::Info,
        _ => Severity::Warning,
    }
}

/// The severity a rule reports at when the configuration does not override it.
pub fn default_severity(id: RuleId) -> (r: Severity)
    ensures
        r == spec_default_severity(id),
{
    match id {
        RuleId::ImageMissingAlt | RuleId::MissingFrontMatterKey => Severity::Error,
        RuleId::CommandsShowOutput | RuleId::DescriptiveLinkText | RuleId::FencedCodeLanguage
        | RuleId::FirstLineHeading | RuleId::LineLength | RuleId::LinkImageReferenceDefinitions
        | RuleId::LinkImageStyle | RuleId::NoEmphasisAsHeading => Severity::Info,
        _ => Severity::Warning,
    }
}

/// Whether a rule ever attaches a fix to its diagnostics.
pub open spec fn spec_fixable(id: RuleId) -> bool {
    match id {
        RuleId::FencedCodeLanguage | RuleId::FirstLineHeading | RuleId::LineLength
        | RuleId::LinkFragments | RuleId::LinkImageStyle | RuleId::MissingFrontMatterKey
        | RuleId::NoDuplicateHeading | RuleId::NoEmphasisAsHeading | RuleId::NoEmptyLinks
        | RuleId::SingleH1 => false,
        _ => true,
    }
}

/// Whether a rule ever attaches a fix to its diagnostics.
pub fn fixable(id: RuleId) -> (r: bool)
    ensures
        r == spec_fixable(id),
{
    match id {
        RuleId::FencedCodeLanguage | RuleId::FirstLineHeading | RuleId::LineLength
        | RuleId::LinkFragments | RuleId::LinkImageStyle | RuleId::MissingFrontMatterKey
        | RuleId::NoDuplicateHeading | RuleId::NoEmphasisAsHeading | RuleId::NoEmptyLinks
        | RuleId::SingleH1 => false,
        _ => true,
    }
}

/// `f(0) + f(1) + ... + f(n - 1)`.
pub open spec fn concat_upto(n: int, f: spec_fn(int) -> Seq<DiagView>) -> Seq<DiagView>
    decreases n,
{
    if n <= 0 {
        Seq::empty()
    } else {
        concat_upto(n - 1, f) + f(n - 1)
    }
}

/// The view of a diagnostic `message` at `range` with `fix`, at its rule's default severity.
pub open spec fn finding(
    message: LintMessage,
    range: Option<Range>,
    fix: Option<(Range, Seq<char>)>,
) -> DiagView {
    DiagView {
        rule: message.spec_rule_id(),
        text: message.spec_text(),
        severity: spec_default_severity(message.spec_rule_id()),
        range,
        fix,
    }
}

/// A diagnostic at its rule's default severity.
pub fn finding_of(message: LintMessage, range: Option<Range>, fix: Option<Fix>) -> (r: Diagnostic)
    ensures
        r@ == finding(message, range, fix_view(fix)),
{
    let severity = default_severity(message.rule_id());
    Diagnostic { message, severity, range, fix }
}

/// Appends `more` to `out`.
pub fn append_all(out: &mut Vec<Diagnostic>, more: Vec<Diagnostic>)
    ensures
        diag_views(final(out)@) == diag_views(old(out)@) + diag_views(more@),
{
    let mut more = more;
    let ghost before = diag_views(old(out)@);
    let ghost all = diag_views(more@);
    let ghost n = more@.len();
    out.append(&mut more);
    proof {
        assert(diag_views(out@) =~= before + all);
    }
}

/// A string of `n` spaces (`" ".repeat(n)`).
pub open spec fn spaces(n: nat) -> Seq<char> {
    Seq::new(n, |_i: int| ' ')
}

/// A string of `n` spaces.
pub fn spaces_string(n: usize) -> (r: String)
    ensures
        r@ == spaces(n as nat),
{
    let mut r = String::new();
    let mut i: usize = 0;
    while i < n
        invariant
            i <= n,
            r@ == spaces(i as nat),
        decreases n - i,
    {
        crate::text::push_char(&mut r, ' ');
        proof {
            assert(r@ =~= spaces((i + 1) as nat));
        }
        i = i + 1;
    }
    r
}

/// Whether position `a` sorts no later than `b`: by start line, then start column, with an
/// unknown position first.
pub open spec fn key_le(a: Option<Range>, b: Option<Range>) -> bool {
    match (a, b) {
        (None, _) => true,
        (Some(_), None) => false,
        (Some(x), Some(y)) => x.start_line < y.start_line || (x.start_line == y.start_line
            && x.start_column <= y.start_column),
    }
}

/// Whether position `a` sorts no later than `b`.
pub fn position_le(a: Option<Range>, b: Option<Range>) -> (r: bool)
    ensures
        r == key_le(a, b),
{
    match (a, b) {
        (None, _) => true,
        (Some(_), None) => false,
        (Some(x), Some(y)) => x.start_line < y.start_line || (x.start_line == y.start_line
            && x.start_column <= y.start_column),
    }
}

/// The number of leading entries of `order` whose position sorts no later than `k`.
pub open spec fn insert_pos(order: Seq<usize>, keys: Seq<Option<Range>>, k: Option<Range>) -> nat
    decreases order.len(),
{
    if order.len() > 0 && key_le(keys[order[0] as int], k) {
        1 + insert_pos(order.drop_first(), keys, k)
    } else {
        0
    }
}

/// The indices `0..n` of `keys` in stable sorted order (`sort_by_key` on the positions): each
/// index goes after every earlier index whose position sorts no later than its own.
pub open spec fn stable_order(keys: Seq<Option<Range>>, n: int) -> Seq<usize>
    decreases n,
{
    if n <= 0 {
        Seq::empty()
    } else {
        let o = stable_order(keys, n - 1);
        o.insert(insert_pos(o, keys, keys[n - 1]) as int, (n - 1) as usize)
    }
}

pub proof fn lemma_insert_pos_bound(order: Seq<usize>, keys: Seq<Option<Range>>, k: Option<Range>)
    ensures
        insert_pos(order, keys, k) <= order.len(),
    decreases order.len(),
{
    if order.len() > 0 && key_le(keys[order[0] as int], k) {
        lemma_insert_pos_bound(order.drop_first(), keys, k);
    }
}

pub proof fn lemma_insert_pos_is(
    order: Seq<usize>,
    keys: Seq<Option<Range>>,
    k: Option<Range>,
    p: int,
)
    requires
        0 <= p <= order.len(),
        forall|j: int| 0 <= j < p ==> key_le(keys[#[trigger] order[j] as int], k),
        p == order.len() || !key_le(keys[order[p] as int], k),
    ensures
        insert_pos(order, keys, k) == p,
    decreases p,
{
    if p > 0 {
        let t = order.drop_first();
        assert forall|j: int| 0 <= j < p - 1 implies key_le(keys[#[trigger] t[j] as int], k) by {
            assert(t[j] == order[j + 1]);
        }
        if p < order.len() {
            assert(t[p - 1] == order[p]);
        }
        lemma_insert_pos_is(t, keys, k, p - 1);
    }
}

pub proof fn lemma_stable_order_len(keys: Seq<Option<Range>>, n: int)
    ensures
        stable_order(keys, n).len() == if n <= 0 {
            0
        } else {
            n
        },
        forall|j: int|
            0 <= j < stable_order(keys, n).len() ==> #[trigger] stable_order(keys, n)[j] < n,
    decreases n,
{
    if n > 0 {
        lemma_stable_order_len(keys, n - 1);
        let o = stable_order(keys, n - 1);
        lemma_insert_pos_bound(o, keys, keys[n - 1]);
        let p = insert_pos(o, keys, keys[n - 1]) as int;
        let r = o.insert(p, (n - 1) as usize);
        assert forall|j: int| 0 <= j < r.len() implies #[trigger] r[j] < n by {
            if j < p {
                assert(r[j] == o[j]);
            } else if j > p {
                assert(r[j] == o[j - 1]);
            }
        }
    }
}

/// The indices of `keys` in stable sorted order of their positions.
pub fn sorted_by_position(keys: &Vec<Option<Range>>) -> (r: Vec<usize>)
    ensures
        r@ == stable_order(keys@, keys@.len() as int),
        r@.len() == keys@.len(),
        forall|j: int| 0 <= j < r@.len() ==> #[trigger] r@[j] < keys@.len(),
{
    let mut order: Vec<usize> = Vec::new();
    let mut i: usize = 0;
    while i < keys.len()
        invariant
            i <= keys@.len(),
            order@ == stable_order(keys@, i as int),
        decreases keys@.len() - i,
    {
        proof {
            lemma_stable_order_len(keys@, i as int);
        }
        let mut p: usize = 0;
        while p < order.len() && position_le(keys[order[p]], keys[i])
            invariant
                order@ == stable_order(keys@, i as int),
                order@.len() == i,
                forall|j: int| 0 <= j < order@.len() ==> #[trigger] order@[j] < i,
                i < keys@.len(),
                p <= order@.len(),
                forall|j: int| 0 <= j < p ==> key_le(keys@[#[trigger] order@[j] as int], keys@[i as int]),
            decreases order@.len() - p,
        {
            p = p + 1;
        }
        proof {
            lemma_insert_pos_is(order@, keys@, keys@[i as int], p as int);
        }
        order.insert(p, i);
        i = i + 1;
    }
    proof {
        lemma_stable_order_len(keys@, keys@.len() as int);
    }
    order
}

/// The diagnostics rule `id` reports on `doc`, parsed from `source`, under `config`.
pub open spec fn spec_check(id: RuleId, doc: Document, source: Seq<char>, config: LintConfig) -> Seq<
    DiagView,
> {
    let nodes = doc.nodes@;
    let top = doc.top@;
    match id {
        RuleId::HeadingHierarchySkip => spec_heading_hierarchy_skip(nodes),
        RuleId::ImageMissingAlt => spec_node_rule(RuleId::ImageMissingAlt, nodes, false),
        RuleId::NoMultipleSpaceAtx => spec_no_multiple_space_atx(nodes, source),
        RuleId::NoMissingSpaceClosedAtx => spec_closed_atx(nodes, source, true),
        RuleId::NoMultipleSpaceClosedAtx => spec_closed_atx(nodes, source, false),
        RuleId::BlanksAroundHeadings => spec_blanks_around_nodes(
            BlankAround::Headings,
            nodes,
            source,
        ),
        RuleId::HeadingStartLeft => spec_heading_start_left(nodes, source),
        RuleId::NoDuplicateHeading => spec_no_duplicate_heading(nodes),
        RuleId::NoTrailingPunctuationHeading => spec_no_trailing_punctuation_heading(
            nodes,
            source,
            punctuation_option(config),
        ),
        RuleId::FirstLineHeading => spec_first_line_heading(top),
        RuleId::BlanksAroundLists => spec_blanks_around_blocks(BlankAround::Lists, top, source),
        RuleId::NoTrailingSpaces => spec_no_trailing_spaces(source, br_spaces_option(config)),
        RuleId::NoHardTabs => spec_no_hard_tabs(source, tab_spaces_option(config)),
        RuleId::NoMultipleBlanks => spec_no_multiple_blanks(source, maximum_blanks_option(config)),
        RuleId::LineLength => spec_line_length(
            source,
            nodes,
            line_limit_option(config),
            code_blocks_option(config),
        ),
        RuleId::NoBlanksBlockquote => spec_no_blanks_blockquote(source),
        RuleId::FencedCodeLanguage => spec_node_rule(RuleId::FencedCodeLanguage, nodes, false),
        RuleId::CodeBlockStyle => spec_node_rule(
            RuleId::CodeBlockStyle,
            nodes,
            expected_code_style(nodes, config),
        ),
        RuleId::BlanksAroundFences => spec_blanks_around_nodes(BlankAround::Fences, nodes, source),
        RuleId::NoEmptyLinks => spec_node_rule(RuleId::NoEmptyLinks, nodes, false),
        RuleId::BlanksAroundTables => spec_blanks_around_blocks(BlankAround::Tables, top, source),
        RuleId::NoMissingSpaceAtx => spec_no_missing_space_atx(nodes, source),
        RuleId::NoMultipleSpaceBlockquote => spec_no_multiple_space_blockquote(nodes, source),
        RuleId::HrStyle => spec_hr_style(nodes, source, config),
        RuleId::CodeFenceStyle => spec_code_fence_style(nodes, source, config),
        RuleId::ListIndent => spec_list_indent(top, source),
        RuleId::ListMarkerSpace => spec_list_marker_space(top, source, marker_spaces_option(config)),
        RuleId::MissingFrontMatterKey => spec_missing_front_matter_key(
            top,
            config.required_front_matter_keys@,
        ),
        RuleId::LinkImageReferenceDefinitions => spec_link_image_reference_definitions(
            nodes,
            source,
        ),
        RuleId::LinkFragments => spec_link_fragments(nodes),
        RuleId::NoInlineHtml => spec_no_inline_html(nodes, allowed_html_option(config)),
        RuleId::HeadingStyle => spec_heading_style(nodes, source, config),
        RuleId::EmphasisStyle => spec_emphasis_style(nodes, source, config),
        RuleId::NoSpaceInCode => spec_no_space_in_code(nodes, source),
        RuleId::NoSpaceInLinks => spec_no_space_in_links(nodes, source),
        RuleId::LinkImageStyle => spec_link_image_style(nodes, source, config),
        RuleId::NoSpaceInEmphasis | RuleId::NoReversedLinks | RuleId::NoBareUrls => spec_scan_rule(
            id,
            nodes,
            source,
        ),
        RuleId::DescriptiveLinkText => spec_descriptive_link_text(nodes, config),
        RuleId::NoEmphasisAsHeading => spec_no_emphasis_as_heading(top, source),
        RuleId::CommandsShowOutput => spec_commands_show_output(nodes),
        RuleId::SingleH1 => spec_single_h1(nodes),
        RuleId::UlStyle => spec_ul_style(top, source, config),
        RuleId::StrongStyle => spec_strong_style(nodes, source, config),
        RuleId::SingleTrailingNewline => spec_single_trailing_newline(source),
        _ => Seq::empty(),
    }
}

/// Whether this library carries rule `id`.
pub open spec fn spec_implemented(id: RuleId) -> bool {
    match id {
        RuleId::HeadingHierarchySkip | RuleId::ImageMissingAlt | RuleId::NoMultipleSpaceAtx
        | RuleId::NoMissingSpaceClosedAtx | RuleId::NoMultipleSpaceClosedAtx
        | RuleId::BlanksAroundHeadings | RuleId::HeadingStartLeft | RuleId::NoDuplicateHeading
        | RuleId::NoTrailingPunctuationHeading | RuleId::FirstLineHeading
        | RuleId::BlanksAroundLists | RuleId::NoTrailingSpaces | RuleId::NoHardTabs
        | RuleId::NoMultipleBlanks | RuleId::LineLength | RuleId::NoBlanksBlockquote
        | RuleId::FencedCodeLanguage | RuleId::CodeBlockStyle | RuleId::BlanksAroundFences
        | RuleId::NoEmptyLinks | RuleId::BlanksAroundTables | RuleId::NoMissingSpaceAtx
        | RuleId::NoMultipleSpaceBlockquote | RuleId::HrStyle | RuleId::CodeFenceStyle
        | RuleId::ListIndent | RuleId::ListMarkerSpace | RuleId::MissingFrontMatterKey
        | RuleId::LinkImageReferenceDefinitions | RuleId::LinkFragments | RuleId::NoInlineHtml
        | RuleId::HeadingStyle | RuleId::EmphasisStyle | RuleId::NoSpaceInCode
        | RuleId::NoSpaceInLinks | RuleId::LinkImageStyle | RuleId::NoSpaceInEmphasis
        | RuleId::NoReversedLinks | RuleId::NoBareUrls | RuleId::DescriptiveLinkText
        | RuleId::NoEmphasisAsHeading | RuleId::CommandsShowOutput | RuleId::SingleH1
        | RuleId::SingleTrailingNewline | RuleId::StrongStyle | RuleId::UlStyle => true,
        _ => false,
    }
}

/// Whether this library carries rule `id`.
pub fn implemented(id: RuleId) -> (r: bool)
    ensures
        r == spec_implemented(id),
{
    match id {
        RuleId::HeadingHierarchySkip | RuleId::ImageMissingAlt | RuleId::NoMultipleSpaceAtx
        | RuleId::NoMissingSpaceClosedAtx | RuleId::NoMultipleSpaceClosedAtx
        | RuleId::BlanksAroundHeadings | RuleId::HeadingStartLeft | RuleId::NoDuplicateHeading
        | RuleId::NoTrailingPunctuationHeading | RuleId::FirstLineHeading
        | RuleId::BlanksAroundLists | RuleId::NoTrailingSpaces | RuleId::NoHardTabs
        | RuleId::NoMultipleBlanks | RuleId::LineLength | RuleId::NoBlanksBlockquote
        | RuleId::FencedCodeLanguage | RuleId::CodeBlockStyle | RuleId::BlanksAroundFences
        | RuleId::NoEmptyLinks | RuleId::BlanksAroundTables | RuleId::NoMissingSpaceAtx
        | RuleId::NoMultipleSpaceBlockquote | RuleId::HrStyle | RuleId::CodeFenceStyle
        | RuleId::ListIndent | RuleId::ListMarkerSpace | RuleId::MissingFrontMatterKey
        | RuleId::LinkImageReferenceDefinitions | RuleId::LinkFragments | RuleId::NoInlineHtml
        | RuleId::HeadingStyle | RuleId::EmphasisStyle | RuleId::NoSpaceInCode
        | RuleId::NoSpaceInLinks | RuleId::LinkImageStyle | RuleId::NoSpaceInEmphasis
        | RuleId::NoReversedLinks | RuleId::NoBareUrls | RuleId::DescriptiveLinkText
        | RuleId::NoEmphasisAsHeading | RuleId::CommandsShowOutput | RuleId::SingleH1
        | RuleId::SingleTrailingNewline | RuleId::StrongStyle | RuleId::UlStyle => true,
        _ => false,
    }
}

/// Runs rule `id` on `doc`, parsed from `source`, under `config`.
pub fn check_rule(id: RuleId, doc: &Document, source: &str, config: &LintConfig) -> (r: Vec<
    Diagnostic,
>)
    requires
        source@.len() < usize::MAX,
    ensures
        diag_views(r@) == spec_check(id, *doc, source@, *config),
{
    match id {
        RuleId::HeadingHierarchySkip => heading_hierarchy_skip(doc),
        RuleId::ImageMissingAlt => node_rule(RuleId::ImageMissingAlt, &doc.nodes, false),
        RuleId::NoMultipleSpaceAtx => no_multiple_space_atx(doc, source),
        RuleId::NoMissingSpaceClosedAtx => closed_atx(doc, source, true),
        RuleId::NoMultipleSpaceClosedAtx => closed_atx(doc, source, false),
        RuleId::BlanksAroundHeadings => blanks_around_nodes(BlankAround::Headings, doc, source),
        RuleId::HeadingStartLeft => heading_start_left(doc, source),
        RuleId::NoDuplicateHeading => no_duplicate_heading(doc),
        RuleId::NoTrailingPunctuationHeading => no_trailing_punctuation_heading(
            doc,
            source,
            config,
        ),
        RuleId::FirstLineHeading => first_line_heading(doc),
        RuleId::BlanksAroundLists => blanks_around_blocks(BlankAround::Lists, doc, source),
        RuleId::NoTrailingSpaces => no_trailing_spaces(source, config),
        RuleId::NoHardTabs => no_hard_tabs(source, config),
        RuleId::NoMultipleBlanks => no_multiple_blanks(source, config),
        RuleId::LineLength => line_length(doc, source, config),
        RuleId::NoBlanksBlockquote => no_blanks_blockquote(source),
        RuleId::FencedCodeLanguage => node_rule(RuleId::FencedCodeLanguage, &doc.nodes, false),
        RuleId::CodeBlockStyle => code_block_style(doc, config),
        RuleId::BlanksAroundFences => blanks_around_nodes(BlankAround::Fences, doc, source),
        RuleId::NoEmptyLinks => node_rule(RuleId::NoEmptyLinks, &doc.nodes, false),
        RuleId::BlanksAroundTables => blanks_around_blocks(BlankAround::Tables, doc, source),
        RuleId::NoMissingSpaceAtx => no_missing_space_atx(doc, source),
        RuleId::NoMultipleSpaceBlockquote => no_multiple_space_blockquote(doc, source),
        RuleId::HrStyle => hr_style(doc, source, config),
        RuleId::CodeFenceStyle => code_fence_style(doc, source, config),
        RuleId::ListIndent => list_indent(doc, source),
        RuleId::ListMarkerSpace => list_marker_space(doc, source, config),
        RuleId::MissingFrontMatterKey => missing_front_matter_key(doc, config),
        RuleId::LinkImageReferenceDefinitions => link_image_reference_definitions(doc, source),
        RuleId::LinkFragments => link_fragments(doc),
        RuleId::NoInlineHtml => no_inline_html(doc, config),
        RuleId::HeadingStyle => heading_style(doc, source, config),
        RuleId::EmphasisStyle => emphasis_style(doc, source, config),
        RuleId::NoSpaceInCode => no_space_in_code(doc, source),
        RuleId::NoSpaceInLinks => no_space_in_links(doc, source),
        RuleId::LinkImageStyle => link_image_style(doc, source, config),
        RuleId::NoSpaceInEmphasis | RuleId::NoReversedLinks | RuleId::NoBareUrls => scan_rule(
            id,
            doc,
            source,
        ),
        RuleId::DescriptiveLinkText => descriptive_link_text(doc, config),
        RuleId::NoEmphasisAsHeading => no_emphasis_as_heading(doc, source),
        RuleId::CommandsShowOutput => commands_show_output(doc),
        RuleId::SingleH1 => single_h1(doc),
        RuleId::UlStyle => ul_style(doc, source, config),
        RuleId::StrongStyle => strong_style(doc, source, config),
        RuleId::SingleTrailingNewline => single_trailing_newline(source),
        _ => {
            let out: Vec<Diagnostic> = Vec::new();
            proof {
                assert(diag_views(out@) =~= Seq::<DiagView>::empty());
            }
            out
        },
    }
}

/// `v` reported at severity `s`.
pub open spec fn at_severity(v: DiagView, s: Severity) -> DiagView {
    DiagView { rule: v.rule, text: v.text, severity: s, range: v.range, fix: v.fix }
}

/// Every diagnostic of `vs` reported at severity `s`.
pub open spec fn all_at_severity(vs: Seq<DiagView>, s: Severity) -> Seq<DiagView> {
    vs.map_values(|v: DiagView| at_severity(v, s))
}

/// Sets every diagnostic's severity to `s`.
pub fn set_severity(ds: Vec<Diagnostic>, s: Severity) -> (r: Vec<Diagnostic>)
    ensures
        diag_views(r@) == all_at_severity(diag_views(ds@), s),
{
    let mut ds = ds;
    let ghost orig = ds@;
    let total = ds.len();
    let mut out: Vec<Diagnostic> = Vec::new();
    let mut k: usize = 0;
    proof {
        assert(diag_views(orig.take(0)) =~= Seq::<DiagView>::empty());
        assert(all_at_severity(Seq::<DiagView>::empty(), s) =~= Seq::<DiagView>::empty());
        assert(diag_views(out@) =~= Seq::<DiagView>::empty());
    }
    while ds.len() > 0
        invariant
            k <= orig.len(),
            orig.len() <= usize::MAX,
            ds@ == orig.skip(k as int),
            diag_views(out@) == all_at_severity(diag_views(orig.take(k as int)), s),
        decreases ds@.len(),
    {
        let mut d = ds.remove(0);
        proof {
            assert(orig.skip(k as int)[0] == orig[k as int]);
            assert(orig.skip(k as int).remove(0) =~= orig.skip(k + 1));
        }
        let ghost od = d@;
        d.severity = s;
        let ghost before = diag_views(out@);
        out.push(d);
        proof {
            assert(d@ == at_severity(od, s));
            assert(diag_views(orig.take(k + 1)) =~= diag_views(orig.take(k as int)).push(od));
            assert(diag_views(out@) =~= before.push(d@));
            assert(diag_views(out@) =~= all_at_severity(diag_views(orig.take(k + 1)), s));
        }
        k = k + 1;
    }
    proof {
        assert(orig.take(k as int) =~= orig);
    }
    out
}

/// The number of leading diagnostics of `sorted` positioned no later than `r`.
pub open spec fn view_insert_pos(sorted: Seq<DiagView>, r: Option<Range>) -> nat
    decreases sorted.len(),
{
    if sorted.len() > 0 && key_le(sorted[0].range, r) {
        1 + view_insert_pos(sorted.drop_first(), r)
    } else {
        0
    }
}

/// `vs` stably sorted by position (`sort_by_key` on the start line and column, an unknown
/// position first): each diagnostic goes after every earlier one positioned no later.
pub open spec fn sort_views(vs: Seq<DiagView>) -> Seq<DiagView>
    decreases vs.len(),
{
    if vs.len() == 0 {
        vs
    } else {
        let o = sort_views(vs.drop_last());
        o.insert(view_insert_pos(o, vs.last().range) as int, vs.last())
    }
}

proof fn lemma_sort_views_len(vs: Seq<DiagView>)
    ensures
        sort_views(vs).len() == vs.len(),
    decreases vs.len(),
{
    if vs.len() > 0 {
        lemma_sort_views_len(vs.drop_last());
        lemma_view_insert_pos_bound(sort_views(vs.drop_last()), vs.last().range);
    }
}

proof fn lemma_view_insert_pos_bound(sorted: Seq<DiagView>, r: Option<Range>)
    ensures
        view_insert_pos(sorted, r) <= sorted.len(),
    decreases sorted.len(),
{
    if sorted.len() > 0 && key_le(sorted[0].range, r) {
        lemma_view_insert_pos_bound(sorted.drop_first(), r);
    }
}

proof fn lemma_view_insert_pos_is(sorted: Seq<DiagView>, r: Option<Range>, p: int)
    requires
        0 <= p <= sorted.len(),
        forall|j: int| 0 <= j < p ==> key_le((#[trigger] sorted[j]).range, r),
        p == sorted.len() || !key_le(sorted[p].range, r),
    ensures
        view_insert_pos(sorted, r) == p,
    decreases p,
{
    if p > 0 {
        let t = sorted.drop_first();
        assert forall|j: int| 0 <= j < p - 1 implies key_le((#[trigger] t[j]).range, r) by {
            assert(t[j] == sorted[j + 1]);
        }
        if p < sorted.len() {
            assert(t[p - 1] == sorted[p]);
        }
        lemma_view_insert_pos_is(t, r, p - 1);
    }
}

/// Sorts diagnostics by position, keeping the order of those at the same position.
pub fn sort_by_position(ds: Vec<Diagnostic>) -> (r: Vec<Diagnostic>)
    ensures
        diag_views(r@) == sort_views(diag_views(ds@)),
{
    let mut ds = ds;
    let ghost orig = ds@;
    let total = ds.len();
    let mut out: Vec<Diagnostic> = Vec::new();
    let mut k: usize = 0;
    proof {
        assert(diag_views(orig.take(0)) =~= Seq::<DiagView>::empty());
    }
    while ds.len() > 0
        invariant
            k <= orig.len(),
            orig.len() <= usize::MAX,
            ds@ == orig.skip(k as int),
            diag_views(out@) == sort_views(diag_views(orig.take(k as int))),
        decreases ds@.len(),
    {
        let d = ds.remove(0);
        proof {
            assert(orig.skip(k as int)[0] == orig[k as int]);
            assert(orig.skip(k as int).remove(0) =~= orig.skip(k + 1));
            lemma_sort_views_len(diag_views(orig.take(k as int)));
        }
        let mut p: usize = 0;
        while p < out.len() && position_le(out[p].range, d.range)
            invariant
                p <= out@.len(),
                forall|j: int| 0 <= j < p ==> key_le((#[trigger] diag_views(out@)[j]).range, d.range),
            decreases out@.len() - p,
        {
            p = p + 1;
        }
        let ghost prev = diag_views(out@);
        proof {
            lemma_view_insert_pos_is(prev, d@.range, p as int);
            assert(diag_views(orig.take(k + 1)).drop_last() =~= diag_views(orig.take(k as int)));
            assert(diag_views(orig.take(k + 1)).last() == d@);
        }
        out.insert(p, d);
        proof {
            assert(diag_views(out@) =~= prev.insert(p as int, d@));
        }
        k = k + 1;
    }
    proof {
        assert(orig.take(k as int) =~= orig);
    }
    out
}

} // verus!
