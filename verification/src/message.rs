//! Rule identity and diagnostic messages.
//!
//! Every built-in rule is named by a [`RuleId`] variant and, when it fires, produces a
//! [`LintMessage`] carrying the data its text needs. Rule ids are `snake_case` names; the
//! descriptions cross-reference the markdownlint rule (`MDxxx`) each one corresponds to.
use vstd::prelude::*;

use crate::text::{dec, fmt_usize, push_char};

verus! {

/// Unique identifier for a built-in lint rule.
#[derive(Debug, Clone, Copy, PartialEq, Eq, Structural, Hash, PartialOrd, Ord)]
pub enum RuleId {
    HeadingHierarchySkip,
    ImageMissingAlt,
    MissingFrontMatterKey,
    HeadingStyle,
    NoMissingSpaceAtx,
    NoMultipleSpaceAtx,
    NoMissingSpaceClosedAtx,
    NoMultipleSpaceClosedAtx,
    BlanksAroundHeadings,
    HeadingStartLeft,
    NoDuplicateHeading,
    SingleH1,
    NoTrailingPunctuationHeading,
    NoEmphasisAsHeading,
    FirstLineHeading,
    RequiredHeadings,
    UlStyle,
    ListIndent,
    UlIndent,
    OlPrefix,
    ListMarkerSpace,
    BlanksAroundLists,
    NoTrailingSpaces,
    NoHardTabs,
    NoMultipleBlanks,
    LineLength,
    NoMultipleSpaceBlockquote,
    NoBlanksBlockquote,
    SingleTrailingNewline,
    FencedCodeLanguage,
    CodeBlockStyle,
    CodeFenceStyle,
    BlanksAroundFences,
    NoBareUrls,
    NoReversedLinks,
    NoEmptyLinks,
    ReferenceLinksImages,
    LinkImageReferenceDefinitions,
    LinkImageStyle,
    LinkFragments,
    RelativeLinkExists,
    DescriptiveLinkText,
    NoSpaceInLinks,
    NoSpaceInEmphasis,
    NoSpaceInCode,
    EmphasisStyle,
    StrongStyle,
    NoInlineHtml,
    ProperNames,
    CommandsShowOutput,
    HrStyle,
    TablePipeStyle,
    TableColumnCount,
    BlanksAroundTables,
    TableColumnStyle,
}

/// Every rule id, in the stable order the rule set uses.
pub open spec fn spec_all_rule_ids() -> Seq<RuleId> {
    seq![RuleId::HeadingHierarchySkip, RuleId::ImageMissingAlt, RuleId::MissingFrontMatterKey, RuleId::HeadingStyle, RuleId::NoMissingSpaceAtx, RuleId::NoMultipleSpaceAtx, RuleId::NoMissingSpaceClosedAtx, RuleId::NoMultipleSpaceClosedAtx, RuleId::BlanksAroundHeadings, RuleId::HeadingStartLeft, RuleId::NoDuplicateHeading, RuleId::SingleH1, RuleId::NoTrailingPunctuationHeading, RuleId::NoEmphasisAsHeading, RuleId::FirstLineHeading, RuleId::RequiredHeadings, RuleId::UlStyle, RuleId::ListIndent, RuleId::UlIndent, RuleId::OlPrefix, RuleId::ListMarkerSpace, RuleId::BlanksAroundLists, RuleId::NoTrailingSpaces, RuleId::NoHardTabs, RuleId::NoMultipleBlanks, RuleId::LineLength, RuleId::NoMultipleSpaceBlockquote, RuleId::NoBlanksBlockquote, RuleId::SingleTrailingNewline, RuleId::FencedCodeLanguage, RuleId::CodeBlockStyle, RuleId::CodeFenceStyle, RuleId::BlanksAroundFences, RuleId::NoBareUrls, RuleId::NoReversedLinks, RuleId::NoEmptyLinks, RuleId::ReferenceLinksImages, RuleId::LinkImageReferenceDefinitions, RuleId::LinkImageStyle, RuleId::LinkFragments, RuleId::RelativeLinkExists, RuleId::DescriptiveLinkText, RuleId::NoSpaceInLinks, RuleId::NoSpaceInEmphasis, RuleId::NoSpaceInCode, RuleId::EmphasisStyle, RuleId::StrongStyle, RuleId::NoInlineHtml, RuleId::ProperNames, RuleId::CommandsShowOutput, RuleId::HrStyle, RuleId::TablePipeStyle, RuleId::TableColumnCount, RuleId::BlanksAroundTables, RuleId::TableColumnStyle]
}

impl RuleId {
    /// Every rule id, in the stable order the rule set uses.
    pub const ALL: [RuleId; 55] = [
        RuleId::HeadingHierarchySkip,
        RuleId::ImageMissingAlt,
        RuleId::MissingFrontMatterKey,
        RuleId::HeadingStyle,
        RuleId::NoMissingSpaceAtx,
        RuleId::NoMultipleSpaceAtx,
        RuleId::NoMissingSpaceClosedAtx,
        RuleId::NoMultipleSpaceClosedAtx,
        RuleId::BlanksAroundHeadings,
        RuleId::HeadingStartLeft,
        RuleId::NoDuplicateHeading,
        RuleId::SingleH1,
        RuleId::NoTrailingPunctuationHeading,
        RuleId::NoEmphasisAsHeading,
        RuleId::FirstLineHeading,
        RuleId::RequiredHeadings,
        RuleId::UlStyle,
        RuleId::ListIndent,
        RuleId::UlIndent,
        RuleId::OlPrefix,
        RuleId::ListMarkerSpace,
        RuleId::BlanksAroundLists,
        RuleId::NoTrailingSpaces,
        RuleId::NoHardTabs,
        RuleId::NoMultipleBlanks,
        RuleId::LineLength,
        RuleId::NoMultipleSpaceBlockquote,
        RuleId::NoBlanksBlockquote,
        RuleId::SingleTrailingNewline,
        RuleId::FencedCodeLanguage,
        RuleId::CodeBlockStyle,
        RuleId::CodeFenceStyle,
        RuleId::BlanksAroundFences,
        RuleId::NoBareUrls,
        RuleId::NoReversedLinks,
        RuleId::NoEmptyLinks,
        RuleId::ReferenceLinksImages,
        RuleId::LinkImageReferenceDefinitions,
        RuleId::LinkImageStyle,
        RuleId::LinkFragments,
        RuleId::RelativeLinkExists,
        RuleId::DescriptiveLinkText,
        RuleId::NoSpaceInLinks,
        RuleId::NoSpaceInEmphasis,
        RuleId::NoSpaceInCode,
        RuleId::EmphasisStyle,
        RuleId::StrongStyle,
        RuleId::NoInlineHtml,
        RuleId::ProperNames,
        RuleId::CommandsShowOutput,
        RuleId::HrStyle,
        RuleId::TablePipeStyle,
        RuleId::TableColumnCount,
        RuleId::BlanksAroundTables,
        RuleId::TableColumnStyle,
    ];

    /// The rule's `snake_case` identifier, as used in config keys and CLI flags.
    pub open spec fn spec_name(self) -> Seq<char> {
        match self {
            RuleId::HeadingHierarchySkip => "heading_hierarchy_skip"@,
            RuleId::ImageMissingAlt => "image_missing_alt"@,
            RuleId::MissingFrontMatterKey => "missing_front_matter_key"@,
            RuleId::HeadingStyle => "heading_style"@,
            RuleId::NoMissingSpaceAtx => "no_missing_space_atx"@,
            RuleId::NoMultipleSpaceAtx => "no_multiple_space_atx"@,
            RuleId::NoMissingSpaceClosedAtx => "no_missing_space_closed_atx"@,
            RuleId::NoMultipleSpaceClosedAtx => "no_multiple_space_closed_atx"@,
            RuleId::BlanksAroundHeadings => "blanks_around_headings"@,
            RuleId::HeadingStartLeft => "heading_start_left"@,
            RuleId::NoDuplicateHeading => "no_duplicate_heading"@,
            RuleId::SingleH1 => "single_h1"@,
            RuleId::NoTrailingPunctuationHeading => "no_trailing_punctuation_heading"@,
            RuleId::NoEmphasisAsHeading => "no_emphasis_as_heading"@,
            RuleId::FirstLineHeading => "first_line_heading"@,
            RuleId::RequiredHeadings => "required_headings"@,
            RuleId::UlStyle => "ul_style"@,
            RuleId::ListIndent => "list_indent"@,
            RuleId::UlIndent => "ul_indent"@,
            RuleId::OlPrefix => "ol_prefix"@,
            RuleId::ListMarkerSpace => "list_marker_space"@,
            RuleId::BlanksAroundLists => "blanks_around_lists"@,
            RuleId::NoTrailingSpaces => "no_trailing_spaces"@,
            RuleId::NoHardTabs => "no_hard_tabs"@,
            RuleId::NoMultipleBlanks => "no_multiple_blanks"@,
            RuleId::LineLength => "line_length"@,
            RuleId::NoMultipleSpaceBlockquote => "no_multiple_space_blockquote"@,
            RuleId::NoBlanksBlockquote => "no_blanks_blockquote"@,
            RuleId::SingleTrailingNewline => "single_trailing_newline"@,
            RuleId::FencedCodeLanguage => "fenced_code_language"@,
            RuleId::CodeBlockStyle => "code_block_style"@,
            RuleId::CodeFenceStyle => "code_fence_style"@,
            RuleId::BlanksAroundFences => "blanks_around_fences"@,
            RuleId::NoBareUrls => "no_bare_urls"@,
            RuleId::NoReversedLinks => "no_reversed_links"@,
            RuleId::NoEmptyLinks => "no_empty_links"@,
            RuleId::ReferenceLinksImages => "reference_links_images"@,
            RuleId::LinkImageReferenceDefinitions => "link_image_reference_definitions"@,
            RuleId::LinkImageStyle => "link_image_style"@,
            RuleId::LinkFragments => "link_fragments"@,
            RuleId::RelativeLinkExists => "relative_link_exists"@,
            RuleId::DescriptiveLinkText => "descriptive_link_text"@,
            RuleId::NoSpaceInLinks => "no_space_in_links"@,
            RuleId::NoSpaceInEmphasis => "no_space_in_emphasis"@,
            RuleId::NoSpaceInCode => "no_space_in_code"@,
            RuleId::EmphasisStyle => "emphasis_style"@,
            RuleId::StrongStyle => "strong_style"@,
            RuleId::NoInlineHtml => "no_inline_html"@,
            RuleId::ProperNames => "proper_names"@,
            RuleId::CommandsShowOutput => "commands_show_output"@,
            RuleId::HrStyle => "hr_style"@,
            RuleId::TablePipeStyle => "table_pipe_style"@,
            RuleId::TableColumnCount => "table_column_count"@,
            RuleId::BlanksAroundTables => "blanks_around_tables"@,
            RuleId::TableColumnStyle => "table_column_style"@,
        }
    }

    /// The position of this id in [`RuleId::ALL`].
    pub open spec fn spec_index(self) -> int {
        match self {
            RuleId::HeadingHierarchySkip => 0,
            RuleId::ImageMissingAlt => 1,
            RuleId::MissingFrontMatterKey => 2,
            RuleId::HeadingStyle => 3,
            RuleId::NoMissingSpaceAtx => 4,
            RuleId::NoMultipleSpaceAtx => 5,
            RuleId::NoMissingSpaceClosedAtx => 6,
            RuleId::NoMultipleSpaceClosedAtx => 7,
            RuleId::BlanksAroundHeadings => 8,
            RuleId::HeadingStartLeft => 9,
            RuleId::NoDuplicateHeading => 10,
            RuleId::SingleH1 => 11,
            RuleId::NoTrailingPunctuationHeading => 12,
            RuleId::NoEmphasisAsHeading => 13,
            RuleId::FirstLineHeading => 14,
            RuleId::RequiredHeadings => 15,
            RuleId::UlStyle => 16,
            RuleId::ListIndent => 17,
            RuleId::UlIndent => 18,
            RuleId::OlPrefix => 19,
            RuleId::ListMarkerSpace => 20,
            RuleId::BlanksAroundLists => 21,
            RuleId::NoTrailingSpaces => 22,
            RuleId::NoHardTabs => 23,
            RuleId::NoMultipleBlanks => 24,
            RuleId::LineLength => 25,
            RuleId::NoMultipleSpaceBlockquote => 26,
            RuleId::NoBlanksBlockquote => 27,
            RuleId::SingleTrailingNewline => 28,
            RuleId::FencedCodeLanguage => 29,
            RuleId::CodeBlockStyle => 30,
            RuleId::CodeFenceStyle => 31,
            RuleId::BlanksAroundFences => 32,
            RuleId::NoBareUrls => 33,
            RuleId::NoReversedLinks => 34,
            RuleId::NoEmptyLinks => 35,
            RuleId::ReferenceLinksImages => 36,
            RuleId::LinkImageReferenceDefinitions => 37,
            RuleId::LinkImageStyle => 38,
            RuleId::LinkFragments => 39,
            RuleId::RelativeLinkExists => 40,
            RuleId::DescriptiveLinkText => 41,
            RuleId::NoSpaceInLinks => 42,
            RuleId::NoSpaceInEmphasis => 43,
            RuleId::NoSpaceInCode => 44,
            RuleId::EmphasisStyle => 45,
            RuleId::StrongStyle => 46,
            RuleId::NoInlineHtml => 47,
            RuleId::ProperNames => 48,
            RuleId::CommandsShowOutput => 49,
            RuleId::HrStyle => 50,
            RuleId::TablePipeStyle => 51,
            RuleId::TableColumnCount => 52,
            RuleId::BlanksAroundTables => 53,
            RuleId::TableColumnStyle => 54,
        }
    }

    /// The rule's `snake_case` identifier, as used in config keys and CLI flags.
    pub fn as_str(&self) -> (r: &'static str)
        ensures
            r@ == self.spec_name(),
    {
        match self {
            RuleId::HeadingHierarchySkip => "heading_hierarchy_skip",
            RuleId::ImageMissingAlt => "image_missing_alt",
            RuleId::MissingFrontMatterKey => "missing_front_matter_key",
            RuleId::HeadingStyle => "heading_style",
            RuleId::NoMissingSpaceAtx => "no_missing_space_atx",
            RuleId::NoMultipleSpaceAtx => "no_multiple_space_atx",
            RuleId::NoMissingSpaceClosedAtx => "no_missing_space_closed_atx",
            RuleId::NoMultipleSpaceClosedAtx => "no_multiple_space_closed_atx",
            RuleId::BlanksAroundHeadings => "blanks_around_headings",
            RuleId::HeadingStartLeft => "heading_start_left",
            RuleId::NoDuplicateHeading => "no_duplicate_heading",
            RuleId::SingleH1 => "single_h1",
            RuleId::NoTrailingPunctuationHeading => "no_trailing_punctuation_heading",
            RuleId::NoEmphasisAsHeading => "no_emphasis_as_heading",
            RuleId::FirstLineHeading => "first_line_heading",
            RuleId::RequiredHeadings => "required_headings",
            RuleId::UlStyle => "ul_style",
            RuleId::ListIndent => "list_indent",
            RuleId::UlIndent => "ul_indent",
            RuleId::OlPrefix => "ol_prefix",
            RuleId::ListMarkerSpace => "list_marker_space",
            RuleId::BlanksAroundLists => "blanks_around_lists",
            RuleId::NoTrailingSpaces => "no_trailing_spaces",
            RuleId::NoHardTabs => "no_hard_tabs",
            RuleId::NoMultipleBlanks => "no_multiple_blanks",
            RuleId::LineLength => "line_length",
            RuleId::NoMultipleSpaceBlockquote => "no_multiple_space_blockquote",
            RuleId::NoBlanksBlockquote => "no_blanks_blockquote",
            RuleId::SingleTrailingNewline => "single_trailing_newline",
            RuleId::FencedCodeLanguage => "fenced_code_language",
            RuleId::CodeBlockStyle => "code_block_style",
            RuleId::CodeFenceStyle => "code_fence_style",
            RuleId::BlanksAroundFences => "blanks_around_fences",
            RuleId::NoBareUrls => "no_bare_urls",
            RuleId::NoReversedLinks => "no_reversed_links",
            RuleId::NoEmptyLinks => "no_empty_links",
            RuleId::ReferenceLinksImages => "reference_links_images",
            RuleId::LinkImageReferenceDefinitions => "link_image_reference_definitions",
            RuleId::LinkImageStyle => "link_image_style",
            RuleId::LinkFragments => "link_fragments",
            RuleId::RelativeLinkExists => "relative_link_exists",
            RuleId::DescriptiveLinkText => "descriptive_link_text",
            RuleId::NoSpaceInLinks => "no_space_in_links",
            RuleId::NoSpaceInEmphasis => "no_space_in_emphasis",
            RuleId::NoSpaceInCode => "no_space_in_code",
            RuleId::EmphasisStyle => "emphasis_style",
            RuleId::StrongStyle => "strong_style",
            RuleId::NoInlineHtml => "no_inline_html",
            RuleId::ProperNames => "proper_names",
            RuleId::CommandsShowOutput => "commands_show_output",
            RuleId::HrStyle => "hr_style",
            RuleId::TablePipeStyle => "table_pipe_style",
            RuleId::TableColumnCount => "table_column_count",
            RuleId::BlanksAroundTables => "blanks_around_tables",
            RuleId::TableColumnStyle => "table_column_style",
        }
    }

    /// A one-line description of what the rule checks.
    pub open spec fn spec_description(self) -> Seq<char> {
        match self {
            RuleId::HeadingHierarchySkip => "MD001: heading levels should only increment by one level at a time."@,
            RuleId::ImageMissingAlt => "MD045: images should have alternate text (alt text)."@,
            RuleId::MissingFrontMatterKey => "Required front matter keys (not a markdownlint rule)."@,
            RuleId::HeadingStyle => "MD003: heading style should be consistent (atx, atx_closed, or setext)."@,
            RuleId::NoMissingSpaceAtx => "MD018: no space after `#` on an ATX-style heading."@,
            RuleId::NoMultipleSpaceAtx => "MD019: multiple spaces after `#` on an ATX-style heading."@,
            RuleId::NoMissingSpaceClosedAtx => "MD020: no space inside the hashes on a closed ATX-style heading."@,
            RuleId::NoMultipleSpaceClosedAtx => "MD021: multiple spaces inside the hashes on a closed ATX-style heading."@,
            RuleId::BlanksAroundHeadings => "MD022: headings should be surrounded by blank lines."@,
            RuleId::HeadingStartLeft => "MD023: headings must start at the beginning of the line."@,
            RuleId::NoDuplicateHeading => "MD024: multiple headings with the same text."@,
            RuleId::SingleH1 => "MD025: multiple top-level (h1) headings in the same document."@,
            RuleId::NoTrailingPunctuationHeading => "MD026: trailing punctuation in a heading."@,
            RuleId::NoEmphasisAsHeading => "MD036: emphasis used instead of a heading."@,
            RuleId::FirstLineHeading => "MD041: the first line in a file should be a top-level heading."@,
            RuleId::RequiredHeadings => "MD043: the document's headings should match a required structure."@,
            RuleId::UlStyle => "MD004: unordered list style should be consistent."@,
            RuleId::ListIndent => "MD005: inconsistent indentation for list items at the same level."@,
            RuleId::UlIndent => "MD007: unordered list indentation."@,
            RuleId::OlPrefix => "MD029: ordered list item prefixes should be consistent."@,
            RuleId::ListMarkerSpace => "MD030: spaces after list markers."@,
            RuleId::BlanksAroundLists => "MD032: lists should be surrounded by blank lines."@,
            RuleId::NoTrailingSpaces => "MD009: trailing spaces."@,
            RuleId::NoHardTabs => "MD010: hard tabs."@,
            RuleId::NoMultipleBlanks => "MD012: multiple consecutive blank lines."@,
            RuleId::LineLength => "MD013: line length."@,
            RuleId::NoMultipleSpaceBlockquote => "MD027: multiple spaces after the blockquote symbol."@,
            RuleId::NoBlanksBlockquote => "MD028: blank line inside a blockquote."@,
            RuleId::SingleTrailingNewline => "MD047: files should end with exactly one trailing newline."@,
            RuleId::FencedCodeLanguage => "MD040: fenced code blocks should have a language specified."@,
            RuleId::CodeBlockStyle => "MD046: code block style should be consistent (fenced vs. indented)."@,
            RuleId::CodeFenceStyle => "MD048: code fence style should be consistent (backtick vs. tilde)."@,
            RuleId::BlanksAroundFences => "MD031: fenced code blocks should be surrounded by blank lines."@,
            RuleId::NoBareUrls => "MD034: bare URL used without angle brackets or link syntax."@,
            RuleId::NoReversedLinks => "MD011: reversed link syntax, e.g. `(text)[url]` instead of `[text](url)`."@,
            RuleId::NoEmptyLinks => "MD042: links with no destination or only a placeholder like `#`."@,
            RuleId::ReferenceLinksImages => "MD052: a reference link/image uses a label with no matching definition."@,
            RuleId::LinkImageReferenceDefinitions => "MD053: a link/image reference definition is never used."@,
            RuleId::LinkImageStyle => "MD054: link/image style should be consistent (inline, reference, autolink, ...)."@,
            RuleId::LinkFragments => "MD051: a link fragment (`#section`) doesn't match any heading in the document."@,
            RuleId::RelativeLinkExists => "MD057: a relative link doesn't point to a file that exists on disk."@,
            RuleId::DescriptiveLinkText => r#"MD059: link text should be descriptive, not generic like "click here"."#@,
            RuleId::NoSpaceInLinks => "MD039: spaces inside link text brackets."@,
            RuleId::NoSpaceInEmphasis => "MD037: spaces inside emphasis markers."@,
            RuleId::NoSpaceInCode => "MD038: spaces inside code span backticks."@,
            RuleId::EmphasisStyle => "MD049: emphasis style should be consistent (`*text*` vs. `_text_`)."@,
            RuleId::StrongStyle => "MD050: strong style should be consistent (`**text**` vs. `__text__`)."@,
            RuleId::NoInlineHtml => "MD033: inline HTML."@,
            RuleId::ProperNames => "MD044: proper names should use the configured capitalization."@,
            RuleId::CommandsShowOutput => "MD014: `$` shown before commands with no output shown."@,
            RuleId::HrStyle => "MD035: horizontal rule style should be consistent."@,
            RuleId::TablePipeStyle => "MD055: table pipe style should be consistent (leading/trailing pipes)."@,
            RuleId::TableColumnCount => "MD056: every row in a table should have the same number of cells as the header."@,
            RuleId::BlanksAroundTables => "MD058: tables should be surrounded by blank lines."@,
            RuleId::TableColumnStyle => "MD060: table column style (padding around `|`) should be consistent."@,
        }
    }

    /// A one-line description of what the rule checks, with its markdownlint equivalent.
    pub fn description(&self) -> (r: &'static str)
        ensures
            r@ == self.spec_description(),
    {
        match self {
            RuleId::HeadingHierarchySkip => "MD001: heading levels should only increment by one level at a time.",
            RuleId::ImageMissingAlt => "MD045: images should have alternate text (alt text).",
            RuleId::MissingFrontMatterKey => "Required front matter keys (not a markdownlint rule).",
            RuleId::HeadingStyle => "MD003: heading style should be consistent (atx, atx_closed, or setext).",
            RuleId::NoMissingSpaceAtx => "MD018: no space after `#` on an ATX-style heading.",
            RuleId::NoMultipleSpaceAtx => "MD019: multiple spaces after `#` on an ATX-style heading.",
            RuleId::NoMissingSpaceClosedAtx => "MD020: no space inside the hashes on a closed ATX-style heading.",
            RuleId::NoMultipleSpaceClosedAtx => "MD021: multiple spaces inside the hashes on a closed ATX-style heading.",
            RuleId::BlanksAroundHeadings => "MD022: headings should be surrounded by blank lines.",
            RuleId::HeadingStartLeft => "MD023: headings must start at the beginning of the line.",
            RuleId::NoDuplicateHeading => "MD024: multiple headings with the same text.",
            RuleId::SingleH1 => "MD025: multiple top-level (h1) headings in the same document.",
            RuleId::NoTrailingPunctuationHeading => "MD026: trailing punctuation in a heading.",
            RuleId::NoEmphasisAsHeading => "MD036: emphasis used instead of a heading.",
            RuleId::FirstLineHeading => "MD041: the first line in a file should be a top-level heading.",
            RuleId::RequiredHeadings => "MD043: the document's headings should match a required structure.",
            RuleId::UlStyle => "MD004: unordered list style should be consistent.",
            RuleId::ListIndent => "MD005: inconsistent indentation for list items at the same level.",
            RuleId::UlIndent => "MD007: unordered list indentation.",
            RuleId::OlPrefix => "MD029: ordered list item prefixes should be consistent.",
            RuleId::ListMarkerSpace => "MD030: spaces after list markers.",
            RuleId::BlanksAroundLists => "MD032: lists should be surrounded by blank lines.",
            RuleId::NoTrailingSpaces => "MD009: trailing spaces.",
            RuleId::NoHardTabs => "MD010: hard tabs.",
            RuleId::NoMultipleBlanks => "MD012: multiple consecutive blank lines.",
            RuleId::LineLength => "MD013: line length.",
            RuleId::NoMultipleSpaceBlockquote => "MD027: multiple spaces after the blockquote symbol.",
            RuleId::NoBlanksBlockquote => "MD028: blank line inside a blockquote.",
            RuleId::SingleTrailingNewline => "MD047: files should end with exactly one trailing newline.",
            RuleId::FencedCodeLanguage => "MD040: fenced code blocks should have a language specified.",
            RuleId::CodeBlockStyle => "MD046: code block style should be consistent (fenced vs. indented).",
            RuleId::CodeFenceStyle => "MD048: code fence style should be consistent (backtick vs. tilde).",
            RuleId::BlanksAroundFences => "MD031: fenced code blocks should be surrounded by blank lines.",
            RuleId::NoBareUrls => "MD034: bare URL used without angle brackets or link syntax.",
            RuleId::NoReversedLinks => "MD011: reversed link syntax, e.g. `(text)[url]` instead of `[text](url)`.",
            RuleId::NoEmptyLinks => "MD042: links with no destination or only a placeholder like `#`.",
            RuleId::ReferenceLinksImages => "MD052: a reference link/image uses a label with no matching definition.",
            RuleId::LinkImageReferenceDefinitions => "MD053: a link/image reference definition is never used.",
            RuleId::LinkImageStyle => "MD054: link/image style should be consistent (inline, reference, autolink, ...).",
            RuleId::LinkFragments => "MD051: a link fragment (`#section`) doesn't match any heading in the document.",
            RuleId::RelativeLinkExists => "MD057: a relative link doesn't point to a file that exists on disk.",
            RuleId::DescriptiveLinkText => r#"MD059: link text should be descriptive, not generic like "click here"."#,
            RuleId::NoSpaceInLinks => "MD039: spaces inside link text brackets.",
            RuleId::NoSpaceInEmphasis => "MD037: spaces inside emphasis markers.",
            RuleId::NoSpaceInCode => "MD038: spaces inside code span backticks.",
            RuleId::EmphasisStyle => "MD049: emphasis style should be consistent (`*text*` vs. `_text_`).",
            RuleId::StrongStyle => "MD050: strong style should be consistent (`**text**` vs. `__text__`).",
            RuleId::NoInlineHtml => "MD033: inline HTML.",
            RuleId::ProperNames => "MD044: proper names should use the configured capitalization.",
            RuleId::CommandsShowOutput => "MD014: `$` shown before commands with no output shown.",
            RuleId::HrStyle => "MD035: horizontal rule style should be consistent.",
            RuleId::TablePipeStyle => "MD055: table pipe style should be consistent (leading/trailing pipes).",
            RuleId::TableColumnCount => "MD056: every row in a table should have the same number of cells as the header.",
            RuleId::BlanksAroundTables => "MD058: tables should be surrounded by blank lines.",
            RuleId::TableColumnStyle => "MD060: table column style (padding around `|`) should be consistent.",
        }
    }
}

/// A diagnostic finding, carrying whatever data its rule needs to render a message.
#[derive(Debug, Clone, PartialEq)]
pub enum LintMessage {
    HeadingHierarchySkip { from: u8, to: u8 },
    ImageMissingAlt { url: String },
    MissingFrontMatterKey { key: String, front_matter_present: bool },
    InvalidFrontMatter { reason: String },
    HeadingStyle { expected: String, found: String },
    NoMissingSpaceAtx,
    NoMultipleSpaceAtx,
    NoMissingSpaceClosedAtx,
    NoMultipleSpaceClosedAtx,
    BlanksAroundHeadings { above: bool },
    HeadingStartLeft,
    NoDuplicateHeading { text: String },
    SingleH1,
    NoTrailingPunctuationHeading { punctuation: char },
    NoEmphasisAsHeading { text: String },
    FirstLineHeading,
    RequiredHeadings { expected: String, found: String },
    UlStyle { expected: char, found: char },
    ListIndent { expected: usize, found: usize },
    UlIndent { expected: usize, found: usize },
    OlPrefix { expected: String, found: String },
    ListMarkerSpace { expected: usize, found: usize },
    BlanksAroundLists { above: bool },
    NoTrailingSpaces,
    NoHardTabs,
    NoMultipleBlanks { count: usize },
    LineLength { length: usize, limit: usize },
    NoMultipleSpaceBlockquote,
    NoBlanksBlockquote,
    SingleTrailingNewline,
    FencedCodeLanguage,
    CodeBlockStyle { expected: String },
    CodeFenceStyle { expected: char },
    BlanksAroundFences { above: bool },
    NoBareUrls { url: String },
    NoReversedLinks { text: String },
    NoEmptyLinks,
    ReferenceLinksImages { label: String },
    LinkImageReferenceDefinitions { label: String },
    LinkImageStyle { expected: String, found: String },
    LinkFragments { fragment: String },
    RelativeLinkExists { path: String },
    DescriptiveLinkText { text: String },
    NoSpaceInLinks,
    NoSpaceInEmphasis,
    NoSpaceInCode,
    EmphasisStyle { expected: char, found: char },
    StrongStyle { expected: String, found: String },
    NoInlineHtml { tag: String },
    ProperNames { found: String, expected: String },
    CommandsShowOutput,
    HrStyle { expected: String, found: String },
    TablePipeStyle { expected: String },
    TableColumnCount { expected: usize, found: usize },
    BlanksAroundTables { above: bool },
    TableColumnStyle { expected: String },
}

impl LintMessage {
    /// The rule that produces this message.
    pub open spec fn spec_rule_id(self) -> RuleId {
        match self {
            LintMessage::HeadingHierarchySkip { .. } => RuleId::HeadingHierarchySkip,
            LintMessage::ImageMissingAlt { .. } => RuleId::ImageMissingAlt,
            LintMessage::MissingFrontMatterKey { .. } => RuleId::MissingFrontMatterKey,
            LintMessage::InvalidFrontMatter { .. } => RuleId::MissingFrontMatterKey,
            LintMessage::HeadingStyle { .. } => RuleId::HeadingStyle,
            LintMessage::NoMissingSpaceAtx => RuleId::NoMissingSpaceAtx,
            LintMessage::NoMultipleSpaceAtx => RuleId::NoMultipleSpaceAtx,
            LintMessage::NoMissingSpaceClosedAtx => RuleId::NoMissingSpaceClosedAtx,
            LintMessage::NoMultipleSpaceClosedAtx => RuleId::NoMultipleSpaceClosedAtx,
            LintMessage::BlanksAroundHeadings { .. } => RuleId::BlanksAroundHeadings,
            LintMessage::HeadingStartLeft => RuleId::HeadingStartLeft,
            LintMessage::NoDuplicateHeading { .. } => RuleId::NoDuplicateHeading,
            LintMessage::SingleH1 => RuleId::SingleH1,
            LintMessage::NoTrailingPunctuationHeading { .. } => RuleId::NoTrailingPunctuationHeading,
            LintMessage::NoEmphasisAsHeading { .. } => RuleId::NoEmphasisAsHeading,
            LintMessage::FirstLineHeading => RuleId::FirstLineHeading,
            LintMessage::RequiredHeadings { .. } => RuleId::RequiredHeadings,
            LintMessage::UlStyle { .. } => RuleId::UlStyle,
            LintMessage::ListIndent { .. } => RuleId::ListIndent,
            LintMessage::UlIndent { .. } => RuleId::UlIndent,
            LintMessage::OlPrefix { .. } => RuleId::OlPrefix,
            LintMessage::ListMarkerSpace { .. } => RuleId::ListMarkerSpace,
            LintMessage::BlanksAroundLists { .. } => RuleId::BlanksAroundLists,
            LintMessage::NoTrailingSpaces => RuleId::NoTrailingSpaces,
            LintMessage::NoHardTabs => RuleId::NoHardTabs,
            LintMessage::NoMultipleBlanks { .. } => RuleId::NoMultipleBlanks,
            LintMessage::LineLength { .. } => RuleId::LineLength,
            LintMessage::NoMultipleSpaceBlockquote => RuleId::NoMultipleSpaceBlockquote,
            LintMessage::NoBlanksBlockquote => RuleId::NoBlanksBlockquote,
            LintMessage::SingleTrailingNewline => RuleId::SingleTrailingNewline,
            LintMessage::FencedCodeLanguage => RuleId::FencedCodeLanguage,
            LintMessage::CodeBlockStyle { .. } => RuleId::CodeBlockStyle,
            LintMessage::CodeFenceStyle { .. } => RuleId::CodeFenceStyle,
            LintMessage::BlanksAroundFences { .. } => RuleId::BlanksAroundFences,
            LintMessage::NoBareUrls { .. } => RuleId::NoBareUrls,
            LintMessage::NoReversedLinks { .. } => RuleId::NoReversedLinks,
            LintMessage::NoEmptyLinks => RuleId::NoEmptyLinks,
            LintMessage::ReferenceLinksImages { .. } => RuleId::ReferenceLinksImages,
            LintMessage::LinkImageReferenceDefinitions { .. } => RuleId::LinkImageReferenceDefinitions,
            LintMessage::LinkImageStyle { .. } => RuleId::LinkImageStyle,
            LintMessage::LinkFragments { .. } => RuleId::LinkFragments,
            LintMessage::RelativeLinkExists { .. } => RuleId::RelativeLinkExists,
            LintMessage::DescriptiveLinkText { .. } => RuleId::DescriptiveLinkText,
            LintMessage::NoSpaceInLinks => RuleId::NoSpaceInLinks,
            LintMessage::NoSpaceInEmphasis => RuleId::NoSpaceInEmphasis,
            LintMessage::NoSpaceInCode => RuleId::NoSpaceInCode,
            LintMessage::EmphasisStyle { .. } => RuleId::EmphasisStyle,
            LintMessage::StrongStyle { .. } => RuleId::StrongStyle,
            LintMessage::NoInlineHtml { .. } => RuleId::NoInlineHtml,
            LintMessage::ProperNames { .. } => RuleId::ProperNames,
            LintMessage::CommandsShowOutput => RuleId::CommandsShowOutput,
            LintMessage::HrStyle { .. } => RuleId::HrStyle,
            LintMessage::TablePipeStyle { .. } => RuleId::TablePipeStyle,
            LintMessage::TableColumnCount { .. } => RuleId::TableColumnCount,
            LintMessage::BlanksAroundTables { .. } => RuleId::BlanksAroundTables,
            LintMessage::TableColumnStyle { .. } => RuleId::TableColumnStyle,
        }
    }

    /// The rule that produces this message.
    pub fn rule_id(&self) -> (r: RuleId)
        ensures
            r == self.spec_rule_id(),
    {
        match self {
            LintMessage::HeadingHierarchySkip { .. } => RuleId::HeadingHierarchySkip,
            LintMessage::ImageMissingAlt { .. } => RuleId::ImageMissingAlt,
            LintMessage::MissingFrontMatterKey { .. } => RuleId::MissingFrontMatterKey,
            LintMessage::InvalidFrontMatter { .. } => RuleId::MissingFrontMatterKey,
            LintMessage::HeadingStyle { .. } => RuleId::HeadingStyle,
            LintMessage::NoMissingSpaceAtx => RuleId::NoMissingSpaceAtx,
            LintMessage::NoMultipleSpaceAtx => RuleId::NoMultipleSpaceAtx,
            LintMessage::NoMissingSpaceClosedAtx => RuleId::NoMissingSpaceClosedAtx,
            LintMessage::NoMultipleSpaceClosedAtx => RuleId::NoMultipleSpaceClosedAtx,
            LintMessage::BlanksAroundHeadings { .. } => RuleId::BlanksAroundHeadings,
            LintMessage::HeadingStartLeft => RuleId::HeadingStartLeft,
            LintMessage::NoDuplicateHeading { .. } => RuleId::NoDuplicateHeading,
            LintMessage::SingleH1 => RuleId::SingleH1,
            LintMessage::NoTrailingPunctuationHeading { .. } => RuleId::NoTrailingPunctuationHeading,
            LintMessage::NoEmphasisAsHeading { .. } => RuleId::NoEmphasisAsHeading,
            LintMessage::FirstLineHeading => RuleId::FirstLineHeading,
            LintMessage::RequiredHeadings { .. } => RuleId::RequiredHeadings,
            LintMessage::UlStyle { .. } => RuleId::UlStyle,
            LintMessage::ListIndent { .. } => RuleId::ListIndent,
            LintMessage::UlIndent { .. } => RuleId::UlIndent,
            LintMessage::OlPrefix { .. } => RuleId::OlPrefix,
            LintMessage::ListMarkerSpace { .. } => RuleId::ListMarkerSpace,
            LintMessage::BlanksAroundLists { .. } => RuleId::BlanksAroundLists,
            LintMessage::NoTrailingSpaces => RuleId::NoTrailingSpaces,
            LintMessage::NoHardTabs => RuleId::NoHardTabs,
            LintMessage::NoMultipleBlanks { .. } => RuleId::NoMultipleBlanks,
            LintMessage::LineLength { .. } => RuleId::LineLength,
            LintMessage::NoMultipleSpaceBlockquote => RuleId::NoMultipleSpaceBlockquote,
            LintMessage::NoBlanksBlockquote => RuleId::NoBlanksBlockquote,
            LintMessage::SingleTrailingNewline => RuleId::SingleTrailingNewline,
            LintMessage::FencedCodeLanguage => RuleId::FencedCodeLanguage,
            LintMessage::CodeBlockStyle { .. } => RuleId::CodeBlockStyle,
            LintMessage::CodeFenceStyle { .. } => RuleId::CodeFenceStyle,
            LintMessage::BlanksAroundFences { .. } => RuleId::BlanksAroundFences,
            LintMessage::NoBareUrls { .. } => RuleId::NoBareUrls,
            LintMessage::NoReversedLinks { .. } => RuleId::NoReversedLinks,
            LintMessage::NoEmptyLinks => RuleId::NoEmptyLinks,
            LintMessage::ReferenceLinksImages { .. } => RuleId::ReferenceLinksImages,
            LintMessage::LinkImageReferenceDefinitions { .. } => RuleId::LinkImageReferenceDefinitions,
            LintMessage::LinkImageStyle { .. } => RuleId::LinkImageStyle,
            LintMessage::LinkFragments { .. } => RuleId::LinkFragments,
            LintMessage::RelativeLinkExists { .. } => RuleId::RelativeLinkExists,
            LintMessage::DescriptiveLinkText { .. } => RuleId::DescriptiveLinkText,
            LintMessage::NoSpaceInLinks => RuleId::NoSpaceInLinks,
            LintMessage::NoSpaceInEmphasis => RuleId::NoSpaceInEmphasis,
            LintMessage::NoSpaceInCode => RuleId::NoSpaceInCode,
            LintMessage::EmphasisStyle { .. } => RuleId::EmphasisStyle,
            LintMessage::StrongStyle { .. } => RuleId::StrongStyle,
            LintMessage::NoInlineHtml { .. } => RuleId::NoInlineHtml,
            LintMessage::ProperNames { .. } => RuleId::ProperNames,
            LintMessage::CommandsShowOutput => RuleId::CommandsShowOutput,
            LintMessage::HrStyle { .. } => RuleId::HrStyle,
            LintMessage::TablePipeStyle { .. } => RuleId::TablePipeStyle,
            LintMessage::TableColumnCount { .. } => RuleId::TableColumnCount,
            LintMessage::BlanksAroundTables { .. } => RuleId::BlanksAroundTables,
            LintMessage::TableColumnStyle { .. } => RuleId::TableColumnStyle,
        }
    }

    /// The human-readable diagnostic text.
    pub open spec fn spec_text(self) -> Seq<char> {
        match self {
            LintMessage::HeadingHierarchySkip { from, to } => "heading level jumps from h"@ + dec(from as nat) + " to h"@ + dec(to as nat) + ", skipping a level"@,
            LintMessage::ImageMissingAlt { url } => "image `"@ + url@ + "` has no alt text"@,
            LintMessage::MissingFrontMatterKey { key, front_matter_present } => if front_matter_present { "front matter is missing required key `"@ + key@ + "`"@ } else { "document has no front matter block (required key `"@ + key@ + "` is missing)"@ },
            LintMessage::InvalidFrontMatter { reason } => "front matter could not be parsed: "@ + reason@,
            LintMessage::HeadingStyle { expected, found } => "heading style is "@ + found@ + ", expected "@ + expected@ + " (for consistency with earlier headings)"@,
            LintMessage::NoMissingSpaceAtx => "no space after `#` on this ATX heading"@,
            LintMessage::NoMultipleSpaceAtx => "multiple spaces after `#` on this ATX heading"@,
            LintMessage::NoMissingSpaceClosedAtx => "no space before the closing `#` on this heading"@,
            LintMessage::NoMultipleSpaceClosedAtx => "multiple spaces before the closing `#` on this heading"@,
            LintMessage::BlanksAroundHeadings { above } => "heading is missing a blank line "@ + (if above { "before it"@ } else { "after it"@ }),
            LintMessage::HeadingStartLeft => "heading does not start at the beginning of the line"@,
            LintMessage::NoDuplicateHeading { text } => "heading `"@ + text@ + "` duplicates an earlier heading"@,
            LintMessage::SingleH1 => "multiple top-level (h1) headings in this document"@,
            LintMessage::NoTrailingPunctuationHeading { punctuation } => "heading ends with trailing punctuation `"@ + seq![punctuation] + "`"@,
            LintMessage::NoEmphasisAsHeading { text } => "emphasized line `"@ + text@ + "` looks like it's meant to be a heading"@,
            LintMessage::FirstLineHeading => "document does not start with a top-level heading"@,
            LintMessage::RequiredHeadings { expected, found } => "heading structure does not match required structure: expected "@ + expected@ + ", found "@ + found@,
            LintMessage::UlStyle { expected, found } => "unordered list marker `"@ + seq![found] + "`, expected `"@ + seq![expected] + "` (for consistency)"@,
            LintMessage::ListIndent { expected, found } => "list item indented "@ + dec(found as nat) + " spaces, expected "@ + dec(expected as nat),
            LintMessage::UlIndent { expected, found } => "unordered list item indented "@ + dec(found as nat) + " spaces, expected "@ + dec(expected as nat),
            LintMessage::OlPrefix { expected, found } => "ordered list item prefix `"@ + found@ + "`, expected `"@ + expected@ + "`"@,
            LintMessage::ListMarkerSpace { expected, found } => dec(found as nat) + " space(s) after the list marker, expected "@ + dec(expected as nat),
            LintMessage::BlanksAroundLists { above } => "list is missing a blank line "@ + (if above { "before it"@ } else { "after it"@ }),
            LintMessage::NoTrailingSpaces => "line has trailing whitespace"@,
            LintMessage::NoHardTabs => "line contains a hard tab"@,
            LintMessage::NoMultipleBlanks { count } => dec(count as nat) + " consecutive blank lines"@,
            LintMessage::LineLength { length, limit } => "line is "@ + dec(length as nat) + " characters long, limit is "@ + dec(limit as nat),
            LintMessage::NoMultipleSpaceBlockquote => "multiple spaces after the blockquote `>`"@,
            LintMessage::NoBlanksBlockquote => "blank line inside a blockquote"@,
            LintMessage::SingleTrailingNewline => "file does not end with exactly one newline"@,
            LintMessage::FencedCodeLanguage => "fenced code block has no language specified"@,
            LintMessage::CodeBlockStyle { expected } => "code block style should be "@ + expected@ + " (for consistency)"@,
            LintMessage::CodeFenceStyle { expected } => "code fence character should be `"@ + seq![expected] + "` (for consistency)"@,
            LintMessage::BlanksAroundFences { above } => "code block is missing a blank line "@ + (if above { "before it"@ } else { "after it"@ }),
            LintMessage::NoBareUrls { url } => "bare URL `"@ + url@ + "` used without link syntax"@,
            LintMessage::NoReversedLinks { text } => "reversed link syntax `"@ + text@ + "`"@,
            LintMessage::NoEmptyLinks => "link has no real destination"@,
            LintMessage::ReferenceLinksImages { label } => "reference `["@ + label@ + "]` has no matching `["@ + label@ + "]: url` definition"@,
            LintMessage::LinkImageReferenceDefinitions { label } => "reference definition `["@ + label@ + "]` is never used"@,
            LintMessage::LinkImageStyle { expected, found } => "link/image style is "@ + found@ + ", expected "@ + expected@ + " (for consistency)"@,
            LintMessage::LinkFragments { fragment } => "link fragment `#"@ + fragment@ + "` does not match any heading in this document"@,
            LintMessage::RelativeLinkExists { path } => "relative link `"@ + path@ + "` does not point to an existing file"@,
            LintMessage::DescriptiveLinkText { text } => "link text `"@ + text@ + "` is not descriptive"@,
            LintMessage::NoSpaceInLinks => "space just inside the link text brackets"@,
            LintMessage::NoSpaceInEmphasis => "space just inside the emphasis markers"@,
            LintMessage::NoSpaceInCode => "space just inside the code span backticks"@,
            LintMessage::EmphasisStyle { expected, found } => "emphasis marker `"@ + seq![found] + "`, expected `"@ + seq![expected] + "` (for consistency)"@,
            LintMessage::StrongStyle { expected, found } => "strong marker `"@ + found@ + "`, expected `"@ + expected@ + "` (for consistency)"@,
            LintMessage::NoInlineHtml { tag } => "inline HTML element `<"@ + tag@ + ">`"@,
            LintMessage::ProperNames { found, expected } => "`"@ + found@ + "` should be capitalized as `"@ + expected@ + "`"@,
            LintMessage::CommandsShowOutput => "`$ ` command prefix used with no output shown"@,
            LintMessage::HrStyle { expected, found } => "horizontal rule `"@ + found@ + "`, expected `"@ + expected@ + "` (for consistency)"@,
            LintMessage::TablePipeStyle { expected } => "table row pipe style should be "@ + expected@,
            LintMessage::TableColumnCount { expected, found } => "table row has "@ + dec(found as nat) + " column(s), expected "@ + dec(expected as nat) + " (matching the header)"@,
            LintMessage::BlanksAroundTables { above } => "table is missing a blank line "@ + (if above { "before it"@ } else { "after it"@ }),
            LintMessage::TableColumnStyle { expected } => "table column style should be "@ + expected@,
        }
    }

    /// The human-readable diagnostic text (what `Display` shows).
    pub fn text(&self) -> (r: String)
        ensures
            r@ == self.spec_text(),
    {
        match self {
            LintMessage::HeadingHierarchySkip { from, to } => {
                let mut r = String::from_str("heading level jumps from h");
                r.append(fmt_usize(*from as usize).as_str());
                r.append(" to h");
                r.append(fmt_usize(*to as usize).as_str());
                r.append(", skipping a level");
                r
            },
            LintMessage::ImageMissingAlt { url } => {
                let mut r = String::from_str("image `");
                r.append(url.as_str());
                r.append("` has no alt text");
                r
            },
            LintMessage::MissingFrontMatterKey { key, front_matter_present } => {
                if *front_matter_present {
                    let mut r = String::from_str("front matter is missing required key `");
                    r.append(key.as_str());
                    r.append("`");
                    r
                } else {
                    let mut r = String::from_str("document has no front matter block (required key `");
                    r.append(key.as_str());
                    r.append("` is missing)");
                    r
                }
            },
            LintMessage::InvalidFrontMatter { reason } => {
                let mut r = String::from_str("front matter could not be parsed: ");
                r.append(reason.as_str());
                r
            },
            LintMessage::HeadingStyle { expected, found } => {
                let mut r = String::from_str("heading style is ");
                r.append(found.as_str());
                r.append(", expected ");
                r.append(expected.as_str());
                r.append(" (for consistency with earlier headings)");
                r
            },
            LintMessage::NoMissingSpaceAtx => {
                let mut r = String::from_str("no space after `#` on this ATX heading");
                r
            },
            LintMessage::NoMultipleSpaceAtx => {
                let mut r = String::from_str("multiple spaces after `#` on this ATX heading");
                r
            },
            LintMessage::NoMissingSpaceClosedAtx => {
                let mut r = String::from_str("no space before the closing `#` on this heading");
                r
            },
            LintMessage::NoMultipleSpaceClosedAtx => {
                let mut r = String::from_str("multiple spaces before the closing `#` on this heading");
                r
            },
            LintMessage::BlanksAroundHeadings { above } => {
                let mut r = String::from_str("heading is missing a blank line ");
                if *above {
                    r.append("before it");
                } else {
                    r.append("after it");
                }
                r
            },
            LintMessage::HeadingStartLeft => {
                let mut r = String::from_str("heading does not start at the beginning of the line");
                r
            },
            LintMessage::NoDuplicateHeading { text } => {
                let mut r = String::from_str("heading `");
                r.append(text.as_str());
                r.append("` duplicates an earlier heading");
                r
            },
            LintMessage::SingleH1 => {
                let mut r = String::from_str("multiple top-level (h1) headings in this document");
                r
            },
            LintMessage::NoTrailingPunctuationHeading { punctuation } => {
                let mut r = String::from_str("heading ends with trailing punctuation `");
                push_char(&mut r, *punctuation);
                r.append("`");
                r
            },
            LintMessage::NoEmphasisAsHeading { text } => {
                let mut r = String::from_str("emphasized line `");
                r.append(text.as_str());
                r.append("` looks like it's meant to be a heading");
                r
            },
            LintMessage::FirstLineHeading => {
                let mut r = String::from_str("document does not start with a top-level heading");
                r
            },
            LintMessage::RequiredHeadings { expected, found } => {
                let mut r = String::from_str("heading structure does not match required structure: expected ");
                r.append(expected.as_str());
                r.append(", found ");
                r.append(found.as_str());
                r
            },
            LintMessage::UlStyle { expected, found } => {
                let mut r = String::from_str("unordered list marker `");
                push_char(&mut r, *found);
                r.append("`, expected `");
                push_char(&mut r, *expected);
                r.append("` (for consistency)");
                r
            },
            LintMessage::ListIndent { expected, found } => {
                let mut r = String::from_str("list item indented ");
                r.append(fmt_usize(*found).as_str());
                r.append(" spaces, expected ");
                r.append(fmt_usize(*expected).as_str());
                r
            },
            LintMessage::UlIndent { expected, found } => {
                let mut r = String::from_str("unordered list item indented ");
                r.append(fmt_usize(*found).as_str());
                r.append(" spaces, expected ");
                r.append(fmt_usize(*expected).as_str());
                r
            },
            LintMessage::OlPrefix { expected, found } => {
                let mut r = String::from_str("ordered list item prefix `");
                r.append(found.as_str());
                r.append("`, expected `");
                r.append(expected.as_str());
                r.append("`");
                r
            },
            LintMessage::ListMarkerSpace { expected, found } => {
                let mut r = fmt_usize(*found);
                r.append(" space(s) after the list marker, expected ");
                r.append(fmt_usize(*expected).as_str());
                r
            },
            LintMessage::BlanksAroundLists { above } => {
                let mut r = String::from_str("list is missing a blank line ");
                if *above {
                    r.append("before it");
                } else {
                    r.append("after it");
                }
                r
            },
            LintMessage::NoTrailingSpaces => {
                let mut r = String::from_str("line has trailing whitespace");
                r
            },
            LintMessage::NoHardTabs => {
                let mut r = String::from_str("line contains a hard tab");
                r
            },
            LintMessage::NoMultipleBlanks { count } => {
                let mut r = fmt_usize(*count);
                r.append(" consecutive blank lines");
                r
            },
            LintMessage::LineLength { length, limit } => {
                let mut r = String::from_str("line is ");
                r.append(fmt_usize(*length).as_str());
                r.append(" characters long, limit is ");
                r.append(fmt_usize(*limit).as_str());
                r
            },
            LintMessage::NoMultipleSpaceBlockquote => {
                let mut r = String::from_str("multiple spaces after the blockquote `>`");
                r
            },
            LintMessage::NoBlanksBlockquote => {
                let mut r = String::from_str("blank line inside a blockquote");
                r
            },
            LintMessage::SingleTrailingNewline => {
                let mut r = String::from_str("file does not end with exactly one newline");
                r
            },
            LintMessage::FencedCodeLanguage => {
                let mut r = String::from_str("fenced code block has no language specified");
                r
            },
            LintMessage::CodeBlockStyle { expected } => {
                let mut r = String::from_str("code block style should be ");
                r.append(expected.as_str());
                r.append(" (for consistency)");
                r
            },
            LintMessage::CodeFenceStyle { expected } => {
                let mut r = String::from_str("code fence character should be `");
                push_char(&mut r, *expected);
                r.append("` (for consistency)");
                r
            },
            LintMessage::BlanksAroundFences { above } => {
                let mut r = String::from_str("code block is missing a blank line ");
                if *above {
                    r.append("before it");
                } else {
                    r.append("after it");
                }
                r
            },
            LintMessage::NoBareUrls { url } => {
                let mut r = String::from_str("bare URL `");
                r.append(url.as_str());
                r.append("` used without link syntax");
                r
            },
            LintMessage::NoReversedLinks { text } => {
                let mut r = String::from_str("reversed link syntax `");
                r.append(text.as_str());
                r.append("`");
                r
            },
            LintMessage::NoEmptyLinks => {
                let mut r = String::from_str("link has no real destination");
                r
            },
            LintMessage::ReferenceLinksImages { label } => {
                let mut r = String::from_str("reference `[");
                r.append(label.as_str());
                r.append("]` has no matching `[");
                r.append(label.as_str());
                r.append("]: url` definition");
                r
            },
            LintMessage::LinkImageReferenceDefinitions { label } => {
                let mut r = String::from_str("reference definition `[");
                r.append(label.as_str());
                r.append("]` is never used");
                r
            },
            LintMessage::LinkImageStyle { expected, found } => {
                let mut r = String::from_str("link/image style is ");
                r.append(found.as_str());
                r.append(", expected ");
                r.append(expected.as_str());
                r.append(" (for consistency)");
                r
            },
            LintMessage::LinkFragments { fragment } => {
                let mut r = String::from_str("link fragment `#");
                r.append(fragment.as_str());
                r.append("` does not match any heading in this document");
                r
            },
            LintMessage::RelativeLinkExists { path } => {
                let mut r = String::from_str("relative link `");
                r.append(path.as_str());
                r.append("` does not point to an existing file");
                r
            },
            LintMessage::DescriptiveLinkText { text } => {
                let mut r = String::from_str("link text `");
                r.append(text.as_str());
                r.append("` is not descriptive");
                r
            },
            LintMessage::NoSpaceInLinks => {
                let mut r = String::from_str("space just inside the link text brackets");
                r
            },
            LintMessage::NoSpaceInEmphasis => {
                let mut r = String::from_str("space just inside the emphasis markers");
                r
            },
            LintMessage::NoSpaceInCode => {
                let mut r = String::from_str("space just inside the code span backticks");
                r
            },
            LintMessage::EmphasisStyle { expected, found } => {
                let mut r = String::from_str("emphasis marker `");
                push_char(&mut r, *found);
                r.append("`, expected `");
                push_char(&mut r, *expected);
                r.append("` (for consistency)");
                r
            },
            LintMessage::StrongStyle { expected, found } => {
                let mut r = String::from_str("strong marker `");
                r.append(found.as_str());
                r.append("`, expected `");
                r.append(expected.as_str());
                r.append("` (for consistency)");
                r
            },
            LintMessage::NoInlineHtml { tag } => {
                let mut r = String::from_str("inline HTML element `<");
                r.append(tag.as_str());
                r.append(">`");
                r
            },
            LintMessage::ProperNames { found, expected } => {
                let mut r = String::from_str("`");
                r.append(found.as_str());
                r.append("` should be capitalized as `");
                r.append(expected.as_str());
                r.append("`");
                r
            },
            LintMessage::CommandsShowOutput => {
                let mut r = String::from_str("`$ ` command prefix used with no output shown");
                r
            },
            LintMessage::HrStyle { expected, found } => {
                let mut r = String::from_str("horizontal rule `");
                r.append(found.as_str());
                r.append("`, expected `");
                r.append(expected.as_str());
                r.append("` (for consistency)");
                r
            },
            LintMessage::TablePipeStyle { expected } => {
                let mut r = String::from_str("table row pipe style should be ");
                r.append(expected.as_str());
                r
            },
            LintMessage::TableColumnCount { expected, found } => {
                let mut r = String::from_str("table row has ");
                r.append(fmt_usize(*found).as_str());
                r.append(" column(s), expected ");
                r.append(fmt_usize(*expected).as_str());
                r.append(" (matching the header)");
                r
            },
            LintMessage::BlanksAroundTables { above } => {
                let mut r = String::from_str("table is missing a blank line ");
                if *above {
                    r.append("before it");
                } else {
                    r.append("after it");
                }
                r
            },
            LintMessage::TableColumnStyle { expected } => {
                let mut r = String::from_str("table column style should be ");
                r.append(expected.as_str());
                r
            },
        }
    }

    /// The suggested action for the user; every message has one.
    pub open spec fn spec_help(self) -> Seq<char> {
        match self {
            LintMessage::HeadingHierarchySkip { from, to } => "insert an intermediate h"@ + dec((from + 1) as nat) + " (or renumber this heading to h"@ + dec((from + 1) as nat) + ")"@,
            LintMessage::ImageMissingAlt { url } => "describe the image's content or purpose in the alt text"@,
            LintMessage::MissingFrontMatterKey { key, front_matter_present } => if front_matter_present { "add `"@ + key@ + ": ...` to the front matter"@ } else { "add a front matter block with `"@ + key@ + ": ...`"@ },
            LintMessage::InvalidFrontMatter { reason } => "fix the front matter syntax so required keys can be checked"@,
            LintMessage::HeadingStyle { expected, found } => "rewrite this heading in "@ + expected@ + " style"@,
            LintMessage::NoMissingSpaceAtx => "add a space after the `#`"@,
            LintMessage::NoMultipleSpaceAtx => "collapse the spaces after `#` to one"@,
            LintMessage::NoMissingSpaceClosedAtx => "add a space before the closing `#`"@,
            LintMessage::NoMultipleSpaceClosedAtx => "collapse the spaces before the closing `#` to one"@,
            LintMessage::BlanksAroundHeadings { above } => if above { "add a blank line before this heading"@ } else { "add a blank line after this heading"@ },
            LintMessage::HeadingStartLeft => "remove the leading whitespace before this heading"@,
            LintMessage::NoDuplicateHeading { text } => "give this heading distinct text"@,
            LintMessage::SingleH1 => "demote this heading, or remove the document's other h1"@,
            LintMessage::NoTrailingPunctuationHeading { punctuation } => "remove the trailing punctuation"@,
            LintMessage::NoEmphasisAsHeading { text } => "use a real heading (`#`) instead of emphasis"@,
            LintMessage::FirstLineHeading => "start the document with a top-level (`#`) heading"@,
            LintMessage::RequiredHeadings { expected, found } => "match the required heading structure: "@ + expected@,
            LintMessage::UlStyle { expected, found } => "use `"@ + seq![expected] + "` as the list marker"@,
            LintMessage::ListIndent { expected, found } => "indent this list item "@ + dec(expected as nat) + " spaces"@,
            LintMessage::UlIndent { expected, found } => "indent this list item "@ + dec(expected as nat) + " spaces"@,
            LintMessage::OlPrefix { expected, found } => "renumber to `"@ + expected@ + "`"@,
            LintMessage::ListMarkerSpace { expected, found } => "use "@ + dec(expected as nat) + " space(s) after the list marker"@,
            LintMessage::BlanksAroundLists { above } => if above { "add a blank line before this list"@ } else { "add a blank line after this list"@ },
            LintMessage::NoTrailingSpaces => "remove the trailing whitespace"@,
            LintMessage::NoHardTabs => "replace the tab with spaces"@,
            LintMessage::NoMultipleBlanks { count } => "collapse the blank lines to one"@,
            LintMessage::LineLength { length, limit } => "wrap this line to "@ + dec(limit as nat) + " characters or fewer"@,
            LintMessage::NoMultipleSpaceBlockquote => "collapse the spaces after `>` to one"@,
            LintMessage::NoBlanksBlockquote => "remove the blank line, or split into two blockquotes"@,
            LintMessage::SingleTrailingNewline => "end the file with exactly one newline"@,
            LintMessage::FencedCodeLanguage => "add a language after the opening fence, e.g. ` ```rust`"@,
            LintMessage::CodeBlockStyle { expected } => "rewrite this code block in "@ + expected@ + " style"@,
            LintMessage::CodeFenceStyle { expected } => "use `"@ + seq![expected] + "` as the fence character"@,
            LintMessage::BlanksAroundFences { above } => if above { "add a blank line before this code block"@ } else { "add a blank line after this code block"@ },
            LintMessage::NoBareUrls { url } => "wrap the URL in `<...>` or use `[text](url)` syntax"@,
            LintMessage::NoReversedLinks { text } => "swap to `[text](url)` syntax"@,
            LintMessage::NoEmptyLinks => "add a real destination, or remove the link"@,
            LintMessage::ReferenceLinksImages { label } => "add a `["@ + label@ + "]: url` definition, or fix the label"@,
            LintMessage::LinkImageReferenceDefinitions { label } => "remove the unused `["@ + label@ + "]: ...` definition, or reference it"@,
            LintMessage::LinkImageStyle { expected, found } => "use "@ + expected@ + " style for this link/image"@,
            LintMessage::LinkFragments { fragment } => "fix the fragment, or add a matching heading"@,
            LintMessage::RelativeLinkExists { path } => "fix the path, or create the missing file"@,
            LintMessage::DescriptiveLinkText { text } => "replace the link text with something that describes the destination"@,
            LintMessage::NoSpaceInLinks => "remove the spaces just inside `[...]`"@,
            LintMessage::NoSpaceInEmphasis => "remove the spaces just inside the emphasis markers"@,
            LintMessage::NoSpaceInCode => "remove the spaces just inside the backticks"@,
            LintMessage::EmphasisStyle { expected, found } => "use `"@ + seq![expected] + "` for emphasis"@,
            LintMessage::StrongStyle { expected, found } => "use `"@ + expected@ + "` for strong text"@,
            LintMessage::NoInlineHtml { tag } => "use Markdown syntax instead of raw HTML"@,
            LintMessage::ProperNames { found, expected } => "use the capitalization `"@ + expected@ + "`"@,
            LintMessage::CommandsShowOutput => "remove the `$ ` prefixes, or show the command's output below it"@,
            LintMessage::HrStyle { expected, found } => "use `"@ + expected@ + "` for horizontal rules"@,
            LintMessage::TablePipeStyle { expected } => "use "@ + expected@ + " pipe style for this table"@,
            LintMessage::TableColumnCount { expected, found } => "add or remove cells so this row has "@ + dec(expected as nat) + " column(s)"@,
            LintMessage::BlanksAroundTables { above } => if above { "add a blank line before this table"@ } else { "add a blank line after this table"@ },
            LintMessage::TableColumnStyle { expected } => "use "@ + expected@ + " column style for this table"@,
        }
    }

    /// Suggested action for the user. Rules with a machine-applicable fix still
    /// populate this; it is shown alongside the fix.
    pub fn help(&self) -> (r: Option<String>)
        ensures
            r matches Some(h) && h@ == self.spec_help(),
    {
        let h = match self {
            LintMessage::HeadingHierarchySkip { from, to } => {
                let next = fmt_usize(*from as usize + 1);
                let mut r = String::from_str("insert an intermediate h");
                r.append(next.as_str());
                r.append(" (or renumber this heading to h");
                r.append(next.as_str());
                r.append(")");
                r
            },
            LintMessage::ImageMissingAlt { url } => {
                let mut r = String::from_str("describe the image's content or purpose in the alt text");
                r
            },
            LintMessage::MissingFrontMatterKey { key, front_matter_present } => {
                if *front_matter_present {
                    let mut r = String::from_str("add `");
                    r.append(key.as_str());
                    r.append(": ...` to the front matter");
                    r
                } else {
                    let mut r = String::from_str("add a front matter block with `");
                    r.append(key.as_str());
                    r.append(": ...`");
                    r
                }
            },
            LintMessage::InvalidFrontMatter { reason } => {
                let mut r = String::from_str("fix the front matter syntax so required keys can be checked");
                r
            },
            LintMessage::HeadingStyle { expected, found } => {
                let mut r = String::from_str("rewrite this heading in ");
                r.append(expected.as_str());
                r.append(" style");
                r
            },
            LintMessage::NoMissingSpaceAtx => {
                let mut r = String::from_str("add a space after the `#`");
                r
            },
            LintMessage::NoMultipleSpaceAtx => {
                let mut r = String::from_str("collapse the spaces after `#` to one");
                r
            },
            LintMessage::NoMissingSpaceClosedAtx => {
                let mut r = String::from_str("add a space before the closing `#`");
                r
            },
            LintMessage::NoMultipleSpaceClosedAtx => {
                let mut r = String::from_str("collapse the spaces before the closing `#` to one");
                r
            },
            LintMessage::BlanksAroundHeadings { above } => {
                if *above {
                    String::from_str("add a blank line before this heading")
                } else {
                    String::from_str("add a blank line after this heading")
                }
            },
            LintMessage::HeadingStartLeft => {
                let mut r = String::from_str("remove the leading whitespace before this heading");
                r
            },
            LintMessage::NoDuplicateHeading { text } => {
                let mut r = String::from_str("give this heading distinct text");
                r
            },
            LintMessage::SingleH1 => {
                let mut r = String::from_str("demote this heading, or remove the document's other h1");
                r
            },
            LintMessage::NoTrailingPunctuationHeading { punctuation } => {
                let mut r = String::from_str("remove the trailing punctuation");
                r
            },
            LintMessage::NoEmphasisAsHeading { text } => {
                let mut r = String::from_str("use a real heading (`#`) instead of emphasis");
                r
            },
            LintMessage::FirstLineHeading => {
                let mut r = String::from_str("start the document with a top-level (`#`) heading");
                r
            },
            LintMessage::RequiredHeadings { expected, found } => {
                let mut r = String::from_str("match the required heading structure: ");
                r.append(expected.as_str());
                r
            },
            LintMessage::UlStyle { expected, found } => {
                let mut r = String::from_str("use `");
                push_char(&mut r, *expected);
                r.append("` as the list marker");
                r
            },
            LintMessage::ListIndent { expected, found } => {
                let mut r = String::from_str("indent this list item ");
                r.append(fmt_usize(*expected).as_str());
                r.append(" spaces");
                r
            },
            LintMessage::UlIndent { expected, found } => {
                let mut r = String::from_str("indent this list item ");
                r.append(fmt_usize(*expected).as_str());
                r.append(" spaces");
                r
            },
            LintMessage::OlPrefix { expected, found } => {
                let mut r = String::from_str("renumber to `");
                r.append(expected.as_str());
                r.append("`");
                r
            },
            LintMessage::ListMarkerSpace { expected, found } => {
                let mut r = String::from_str("use ");
                r.append(fmt_usize(*expected).as_str());
                r.append(" space(s) after the list marker");
                r
            },
            LintMessage::BlanksAroundLists { above } => {
                if *above {
                    String::from_str("add a blank line before this list")
                } else {
                    String::from_str("add a blank line after this list")
                }
            },
            LintMessage::NoTrailingSpaces => {
                let mut r = String::from_str("remove the trailing whitespace");
                r
            },
            LintMessage::NoHardTabs => {
                let mut r = String::from_str("replace the tab with spaces");
                r
            },
            LintMessage::NoMultipleBlanks { count } => {
                let mut r = String::from_str("collapse the blank lines to one");
                r
            },
            LintMessage::LineLength { length, limit } => {
                let mut r = String::from_str("wrap this line to ");
                r.append(fmt_usize(*limit).as_str());
                r.append(" characters or fewer");
                r
            },
            LintMessage::NoMultipleSpaceBlockquote => {
                let mut r = String::from_str("collapse the spaces after `>` to one");
                r
            },
            LintMessage::NoBlanksBlockquote => {
                let mut r = String::from_str("remove the blank line, or split into two blockquotes");
                r
            },
            LintMessage::SingleTrailingNewline => {
                let mut r = String::from_str("end the file with exactly one newline");
                r
            },
            LintMessage::FencedCodeLanguage => {
                let mut r = String::from_str("add a language after the opening fence, e.g. ` ```rust`");
                r
            },
            LintMessage::CodeBlockStyle { expected } => {
                let mut r = String::from_str("rewrite this code block in ");
                r.append(expected.as_str());
                r.append(" style");
                r
            },
            LintMessage::CodeFenceStyle { expected } => {
                let mut r = String::from_str("use `");
                push_char(&mut r, *expected);
                r.append("` as the fence character");
                r
            },
            LintMessage::BlanksAroundFences { above } => {
                if *above {
                    String::from_str("add a blank line before this code block")
                } else {
                    String::from_str("add a blank line after this code block")
                }
            },
            LintMessage::NoBareUrls { url } => {
                let mut r = String::from_str("wrap the URL in `<...>` or use `[text](url)` syntax");
                r
            },
            LintMessage::NoReversedLinks { text } => {
                let mut r = String::from_str("swap to `[text](url)` syntax");
                r
            },
            LintMessage::NoEmptyLinks => {
                let mut r = String::from_str("add a real destination, or remove the link");
                r
            },
            LintMessage::ReferenceLinksImages { label } => {
                let mut r = String::from_str("add a `[");
                r.append(label.as_str());
                r.append("]: url` definition, or fix the label");
                r
            },
            LintMessage::LinkImageReferenceDefinitions { label } => {
                let mut r = String::from_str("remove the unused `[");
                r.append(label.as_str());
                r.append("]: ...` definition, or reference it");
                r
            },
            LintMessage::LinkImageStyle { expected, found } => {
                let mut r = String::from_str("use ");
                r.append(expected.as_str());
                r.append(" style for this link/image");
                r
            },
            LintMessage::LinkFragments { fragment } => {
                let mut r = String::from_str("fix the fragment, or add a matching heading");
                r
            },
            LintMessage::RelativeLinkExists { path } => {
                let mut r = String::from_str("fix the path, or create the missing file");
                r
            },
            LintMessage::DescriptiveLinkText { text } => {
                let mut r = String::from_str("replace the link text with something that describes the destination");
                r
            },
            LintMessage::NoSpaceInLinks => {
                let mut r = String::from_str("remove the spaces just inside `[...]`");
                r
            },
            LintMessage::NoSpaceInEmphasis => {
                let mut r = String::from_str("remove the spaces just inside the emphasis markers");
                r
            },
            LintMessage::NoSpaceInCode => {
                let mut r = String::from_str("remove the spaces just inside the backticks");
                r
            },
            LintMessage::EmphasisStyle { expected, found } => {
                let mut r = String::from_str("use `");
                push_char(&mut r, *expected);
                r.append("` for emphasis");
                r
            },
            LintMessage::StrongStyle { expected, found } => {
                let mut r = String::from_str("use `");
                r.append(expected.as_str());
                r.append("` for strong text");
                r
            },
            LintMessage::NoInlineHtml { tag } => {
                let mut r = String::from_str("use Markdown syntax instead of raw HTML");
                r
            },
            LintMessage::ProperNames { found, expected } => {
                let mut r = String::from_str("use the capitalization `");
                r.append(expected.as_str());
                r.append("`");
                r
            },
            LintMessage::CommandsShowOutput => {
                let mut r = String::from_str("remove the `$ ` prefixes, or show the command's output below it");
                r
            },
            LintMessage::HrStyle { expected, found } => {
                let mut r = String::from_str("use `");
                r.append(expected.as_str());
                r.append("` for horizontal rules");
                r
            },
            LintMessage::TablePipeStyle { expected } => {
                let mut r = String::from_str("use ");
                r.append(expected.as_str());
                r.append(" pipe style for this table");
                r
            },
            LintMessage::TableColumnCount { expected, found } => {
                let mut r = String::from_str("add or remove cells so this row has ");
                r.append(fmt_usize(*expected).as_str());
                r.append(" column(s)");
                r
            },
            LintMessage::BlanksAroundTables { above } => {
                if *above {
                    String::from_str("add a blank line before this table")
                } else {
                    String::from_str("add a blank line after this table")
                }
            },
            LintMessage::TableColumnStyle { expected } => {
                let mut r = String::from_str("use ");
                r.append(expected.as_str());
                r.append(" column style for this table");
                r
            },
        };
        Some(h)
    }
}

/// The smaller of two integers.
pub open spec fn min_int(a: int, b: int) -> int {
    if a <= b { a } else { b }
}

/// Case-sensitive Levenshtein edit distance between `a` and `b`: the fewest single-character
/// insertions, deletions and substitutions that turn `a` into `b`.
pub open spec fn edit_distance(a: Seq<char>, b: Seq<char>) -> nat
    decreases a.len() + b.len(),
{
    if a.len() == 0 {
        b.len()
    } else if b.len() == 0 {
        a.len()
    } else {
        let cost: int = if a.last() == b.last() { 0 } else { 1 };
        min_int(
            min_int(
                edit_distance(a.drop_last(), b) + 1int,
                edit_distance(a, b.drop_last()) + 1int,
            ),
            edit_distance(a.drop_last(), b.drop_last()) + cost,
        ) as nat
    }
}

pub proof fn lemma_edit_distance_bound(a: Seq<char>, b: Seq<char>)
    ensures
        edit_distance(a, b) <= a.len() + b.len(),
        edit_distance(a, b) <= if a.len() >= b.len() { a.len() } else { b.len() },
    decreases a.len() + b.len(),
{
    if a.len() > 0 && b.len() > 0 {
        lemma_edit_distance_bound(a.drop_last(), b);
        lemma_edit_distance_bound(a, b.drop_last());
        lemma_edit_distance_bound(a.drop_last(), b.drop_last());
    }
}

proof fn lemma_edit_distance_empty_right(a: Seq<char>)
    ensures
        edit_distance(a, Seq::<char>::empty()) == a.len(),
{
}

/// Case-sensitive Levenshtein edit distance between `a` and `b`.
pub fn levenshtein(a: &Vec<char>, b: &Vec<char>) -> (r: usize)
    requires
        a@.len() < usize::MAX,
        b@.len() < usize::MAX,
    ensures
        r == edit_distance(a@, b@),
{
    let alen = a.len();
    let blen = b.len();
    let mut prev: Vec<usize> = Vec::new();
    let mut j: usize = 0;
    while j <= blen
        invariant
            blen == b@.len(),
            blen < usize::MAX,
            j <= blen + 1,
            prev@.len() == j,
            forall|k: int| 0 <= k < j ==> prev@[k] == edit_distance(a@.take(0), b@.take(k)),
        decreases blen + 1 - j,
    {
        proof {
            assert(a@.take(0) =~= Seq::<char>::empty());
        }
        prev.push(j);
        j = j + 1;
    }
    let mut i: usize = 0;
    while i < alen
        invariant
            alen == a@.len(),
            blen == b@.len(),
            alen < usize::MAX,
            blen < usize::MAX,
            i <= alen,
            prev@.len() == blen + 1,
            forall|k: int| 0 <= k <= blen ==> prev@[k] == edit_distance(a@.take(i as int), b@.take(k)),
        decreases alen - i,
    {
        let ghost ai = a@.take(i as int);
        let ghost ai1 = a@.take(i + 1);
        let mut curr: Vec<usize> = Vec::new();
        proof {
            assert(b@.take(0) =~= Seq::<char>::empty());
            lemma_edit_distance_empty_right(ai1);
        }
        curr.push(i + 1);
        let mut j: usize = 0;
        while j < blen
            invariant
                alen == a@.len(),
                blen == b@.len(),
                alen < usize::MAX,
                blen < usize::MAX,
                i < alen,
                j <= blen,
                ai == a@.take(i as int),
                ai1 == a@.take(i + 1),
                prev@.len() == blen + 1,
                forall|k: int| 0 <= k <= blen ==> prev@[k] == edit_distance(ai, b@.take(k)),
                curr@.len() == j + 1,
                forall|k: int| 0 <= k <= j ==> curr@[k] == edit_distance(ai1, b@.take(k)),
            decreases blen - j,
        {
            let cost: usize = if a[i] != b[j] { 1 } else { 0 };
            proof {
                lemma_edit_distance_bound(ai, b@.take(j + 1));
                lemma_edit_distance_bound(ai1, b@.take(j as int));
                lemma_edit_distance_bound(ai, b@.take(j as int));
            }
            let x = prev[j + 1] + 1;
            let y = curr[j] + 1;
            let z = prev[j] + cost;
            let m1 = if x <= y { x } else { y };
            let m = if m1 <= z { m1 } else { z };
            proof {
                let bj1 = b@.take(j + 1);
                assert(ai1.drop_last() =~= ai);
                assert(bj1.drop_last() =~= b@.take(j as int));
                assert(ai1.last() == a@[i as int]);
                assert(bj1.last() == b@[j as int]);
            }
            curr.push(m);
            j = j + 1;
        }
        prev = curr;
        i = i + 1;
    }
    proof {
        assert(a@.take(alen as int) =~= a@);
        assert(b@.take(blen as int) =~= b@);
    }
    prev[blen]
}

/// Every rule name is short.
pub proof fn lemma_rule_name_len(id: RuleId)
    ensures
        id.spec_name().len() <= 40,
{
    match id {
        RuleId::HeadingHierarchySkip => {
            reveal_strlit("heading_hierarchy_skip");
        },
        RuleId::ImageMissingAlt => {
            reveal_strlit("image_missing_alt");
        },
        RuleId::MissingFrontMatterKey => {
            reveal_strlit("missing_front_matter_key");
        },
        RuleId::HeadingStyle => {
            reveal_strlit("heading_style");
        },
        RuleId::NoMissingSpaceAtx => {
            reveal_strlit("no_missing_space_atx");
        },
        RuleId::NoMultipleSpaceAtx => {
            reveal_strlit("no_multiple_space_atx");
        },
        RuleId::NoMissingSpaceClosedAtx => {
            reveal_strlit("no_missing_space_closed_atx");
        },
        RuleId::NoMultipleSpaceClosedAtx => {
            reveal_strlit("no_multiple_space_closed_atx");
        },
        RuleId::BlanksAroundHeadings => {
            reveal_strlit("blanks_around_headings");
        },
        RuleId::HeadingStartLeft => {
            reveal_strlit("heading_start_left");
        },
        RuleId::NoDuplicateHeading => {
            reveal_strlit("no_duplicate_heading");
        },
        RuleId::SingleH1 => {
            reveal_strlit("single_h1");
        },
        RuleId::NoTrailingPunctuationHeading => {
            reveal_strlit("no_trailing_punctuation_heading");
        },
        RuleId::NoEmphasisAsHeading => {
            reveal_strlit("no_emphasis_as_heading");
        },
        RuleId::FirstLineHeading => {
            reveal_strlit("first_line_heading");
        },
        RuleId::RequiredHeadings => {
            reveal_strlit("required_headings");
        },
        RuleId::UlStyle => {
            reveal_strlit("ul_style");
        },
        RuleId::ListIndent => {
            reveal_strlit("list_indent");
        },
        RuleId::UlIndent => {
            reveal_strlit("ul_indent");
        },
        RuleId::OlPrefix => {
            reveal_strlit("ol_prefix");
        },
        RuleId::ListMarkerSpace => {
            reveal_strlit("list_marker_space");
        },
        RuleId::BlanksAroundLists => {
            reveal_strlit("blanks_around_lists");
        },
        RuleId::NoTrailingSpaces => {
            reveal_strlit("no_trailing_spaces");
        },
        RuleId::NoHardTabs => {
            reveal_strlit("no_hard_tabs");
        },
        RuleId::NoMultipleBlanks => {
            reveal_strlit("no_multiple_blanks");
        },
        RuleId::LineLength => {
            reveal_strlit("line_length");
        },
        RuleId::NoMultipleSpaceBlockquote => {
            reveal_strlit("no_multiple_space_blockquote");
        },
        RuleId::NoBlanksBlockquote => {
            reveal_strlit("no_blanks_blockquote");
        },
        RuleId::SingleTrailingNewline => {
            reveal_strlit("single_trailing_newline");
        },
        RuleId::FencedCodeLanguage => {
            reveal_strlit("fenced_code_language");
        },
        RuleId::CodeBlockStyle => {
            reveal_strlit("code_block_style");
        },
        RuleId::CodeFenceStyle => {
            reveal_strlit("code_fence_style");
        },
        RuleId::BlanksAroundFences => {
            reveal_strlit("blanks_around_fences");
        },
        RuleId::NoBareUrls => {
            reveal_strlit("no_bare_urls");
        },
        RuleId::NoReversedLinks => {
            reveal_strlit("no_reversed_links");
        },
        RuleId::NoEmptyLinks => {
            reveal_strlit("no_empty_links");
        },
        RuleId::ReferenceLinksImages => {
            reveal_strlit("reference_links_images");
        },
        RuleId::LinkImageReferenceDefinitions => {
            reveal_strlit("link_image_reference_definitions");
        },
        RuleId::LinkImageStyle => {
            reveal_strlit("link_image_style");
        },
        RuleId::LinkFragments => {
            reveal_strlit("link_fragments");
        },
        RuleId::RelativeLinkExists => {
            reveal_strlit("relative_link_exists");
        },
        RuleId::DescriptiveLinkText => {
            reveal_strlit("descriptive_link_text");
        },
        RuleId::NoSpaceInLinks => {
            reveal_strlit("no_space_in_links");
        },
        RuleId::NoSpaceInEmphasis => {
            reveal_strlit("no_space_in_emphasis");
        },
        RuleId::NoSpaceInCode => {
            reveal_strlit("no_space_in_code");
        },
        RuleId::EmphasisStyle => {
            reveal_strlit("emphasis_style");
        },
        RuleId::StrongStyle => {
            reveal_strlit("strong_style");
        },
        RuleId::NoInlineHtml => {
            reveal_strlit("no_inline_html");
        },
        RuleId::ProperNames => {
            reveal_strlit("proper_names");
        },
        RuleId::CommandsShowOutput => {
            reveal_strlit("commands_show_output");
        },
        RuleId::HrStyle => {
            reveal_strlit("hr_style");
        },
        RuleId::TablePipeStyle => {
            reveal_strlit("table_pipe_style");
        },
        RuleId::TableColumnCount => {
            reveal_strlit("table_column_count");
        },
        RuleId::BlanksAroundTables => {
            reveal_strlit("blanks_around_tables");
        },
        RuleId::TableColumnStyle => {
            reveal_strlit("table_column_style");
        },
    }
}

/// Edit distance from `input` to rule id `id`'s name.
pub open spec fn distance_to(input: Seq<char>, id: RuleId) -> nat {
    edit_distance(input, id.spec_name())
}

/// The index of the first rule id, among the first `n` of [`RuleId::ALL`], whose name is
/// closest to `input` (ties go to the earlier one).
pub open spec fn closest_index(input: Seq<char>, n: nat) -> nat
    decreases n,
{
    if n <= 1 {
        0
    } else {
        let best = closest_index(input, (n - 1) as nat);
        if distance_to(input, spec_all_rule_ids()[n - 1]) < distance_to(
            input,
            spec_all_rule_ids()[best as int],
        ) {
            (n - 1) as nat
        } else {
            best
        }
    }
}

/// How far a typo may be from a rule id to still be suggested: half the input's length,
/// clamped to `1..=3`.
pub open spec fn suggest_threshold(len: nat) -> nat {
    let h = len / 2;
    if h < 1 {
        1
    } else if h > 3 {
        3
    } else {
        h
    }
}

/// The built-in rule id closest to `input`, if it is within the suggestion threshold.
pub open spec fn spec_closest_rule_id(input: Seq<char>) -> Option<RuleId> {
    let id = spec_all_rule_ids()[closest_index(input, 55) as int];
    if distance_to(input, id) <= suggest_threshold(input.len()) {
        Some(id)
    } else {
        None
    }
}

proof fn lemma_closest_index_bound(input: Seq<char>, n: nat)
    ensures
        n >= 1 ==> closest_index(input, n) < n,
    decreases n,
{
    if n > 1 {
        lemma_closest_index_bound(input, (n - 1) as nat);
    }
}

/// Every rule id, in the order of [`RuleId::ALL`].
pub fn all_rule_ids() -> (r: Vec<RuleId>)
    ensures
        r@ == spec_all_rule_ids(),
{
    let mut v: Vec<RuleId> = Vec::new();
    let mut i: usize = 0;
    while i < 55
        invariant
            i <= 55,
            v@ == spec_all_rule_ids().take(i as int),
        decreases 55 - i,
    {
        v.push(RuleId::ALL[i]);
        proof {
            assert(v@ =~= spec_all_rule_ids().take(i + 1));
        }
        i = i + 1;
    }
    proof {
        assert(spec_all_rule_ids().take(55) =~= spec_all_rule_ids());
    }
    v
}

/// The built-in rule id closest to `input` by edit distance, or `None` if nothing is close
/// enough to plausibly be a typo of it. The threshold scales with `input`'s length (never more
/// than 3), so a short, unrelated input matches nothing.
pub fn closest_rule_id(input: &str) -> (r: Option<RuleId>)
    requires
        input@.len() < usize::MAX,
    ensures
        r == spec_closest_rule_id(input@),
{
    let chars = crate::text::chars_of(input);
    let threshold = {
        let h = chars.len() / 2;
        if h < 1 {
            1
        } else if h > 3 {
            3
        } else {
            h
        }
    };
    let all = all_rule_ids();
    let first = all[0].as_str();
    let first_chars = crate::text::chars_of(first);
    proof {
        lemma_rule_name_len(all@[0]);
    }
    let mut best: usize = 0;
    let mut best_dist = levenshtein(&chars, &first_chars);
    let mut i: usize = 1;
    while i < 55
        invariant
            all@ == spec_all_rule_ids(),
            chars@ == input@,
            chars@.len() < usize::MAX,
            1 <= i <= 55,
            best as nat == closest_index(input@, i as nat),
            best < i,
            best_dist == distance_to(input@, spec_all_rule_ids()[best as int]),
        decreases 55 - i,
    {
        let name = crate::text::chars_of(all[i].as_str());
        proof {
            lemma_rule_name_len(all@[i as int]);
        }
        let d = levenshtein(&chars, &name);
        if d < best_dist {
            best = i;
            best_dist = d;
        }
        i = i + 1;
    }
    if best_dist <= threshold {
        Some(all[best])
    } else {
        None
    }
}

/// The suggestion suffix for an unknown rule id: ``" (did you mean `x`?)"`` naming the
/// closest rule id, or nothing when none is close enough.
pub open spec fn spec_did_you_mean_suffix(input: Seq<char>) -> Seq<char> {
    match spec_closest_rule_id(input) {
        Some(id) => " (did you mean `"@ + id.spec_name() + "`?)"@,
        None => Seq::empty(),
    }
}

/// Formats [`closest_rule_id`] as a ``" (did you mean `x`?)"`` suffix for an error message, or
/// an empty string if nothing was close enough to suggest.
pub fn did_you_mean_suffix(input: &str) -> (r: String)
    requires
        input@.len() < usize::MAX,
    ensures
        r@ == spec_did_you_mean_suffix(input@),
{
    match closest_rule_id(input) {
        Some(id) => {
            let mut r = String::from_str(" (did you mean `");
            r.append(id.as_str());
            r.append("`?)");
            r
        },
        None => String::new(),
    }
}

/// The error text for an input that names no rule.
pub open spec fn spec_unknown_rule_message(s: Seq<char>) -> Seq<char> {
    "unknown rule id `"@ + s + "`"@ + spec_did_you_mean_suffix(s)
}

impl RuleId {
    /// Looks up the rule id whose name is `s`; an unknown name is an error whose text
    /// suggests the closest rule id, if one is close enough.
    pub fn parse(s: &str) -> (r: Result<RuleId, String>)
        requires
            s@.len() < usize::MAX,
        ensures
            r matches Ok(id) ==> id.spec_name() == s@,
            r is Err <==> forall|id: RuleId| id.spec_name() != s@,
            r matches Err(msg) ==> msg@ == spec_unknown_rule_message(s@),
    {
        let all = all_rule_ids();
        let mut i: usize = 0;
        while i < 55
            invariant
                all@ == spec_all_rule_ids(),
                i <= 55,
                forall|k: int| 0 <= k < i ==> (#[trigger] spec_all_rule_ids()[k]).spec_name() != s@,
            decreases 55 - i,
        {
            if crate::text::str_eq(all[i].as_str(), s) {
                return Ok(all[i]);
            }
            i = i + 1;
        }
        proof {
            assert forall|id: RuleId| id.spec_name() != s@ by {
                lemma_all_rule_ids_index(id);
                assert(spec_all_rule_ids()[id.spec_index()] == id);
            }
        }
        let mut msg = String::from_str("unknown rule id `");
        msg.append(s);
        msg.append("`");
        let suffix = did_you_mean_suffix(s);
        msg.append(suffix.as_str());
        Err(msg)
    }
}

/// Each rule id sits at its own index of [`RuleId::ALL`].
pub proof fn lemma_all_rule_ids_index(id: RuleId)
    ensures
        0 <= id.spec_index() < 55,
        spec_all_rule_ids()[id.spec_index()] == id,
{
}

impl core::str::FromStr for RuleId {
    type Err = String;

    fn from_str(s: &str) -> (r: Result<Self, Self::Err>)
        ensures
            r matches Ok(id) ==> id.spec_name() == s@,
            r is Err <==> forall|id: RuleId| id.spec_name() != s@,
            r matches Err(msg) ==> msg@ == spec_unknown_rule_message(s@),
    {
        let _count = crate::text::char_count(s);
        RuleId::parse(s)
    }
}

/// A short fingerprint of a rule name: its length and three of its characters.
pub open spec fn name_key(s: Seq<char>) -> (int, char, char, char) {
    (s.len() as int, s[0], s[5], s[s.len() - 3])
}

/// The fingerprint each rule name has.
pub open spec fn rule_key(id: RuleId) -> (int, char, char, char) {
    match id {
        RuleId::HeadingHierarchySkip => (22, 'h', 'n', 'k'),
        RuleId::ImageMissingAlt => (17, 'i', '_', 'a'),
        RuleId::MissingFrontMatterKey => (24, 'm', 'n', 'k'),
        RuleId::HeadingStyle => (13, 'h', 'n', 'y'),
        RuleId::NoMissingSpaceAtx => (20, 'n', 's', 'a'),
        RuleId::NoMultipleSpaceAtx => (21, 'n', 'l', 'a'),
        RuleId::NoMissingSpaceClosedAtx => (27, 'n', 's', 'a'),
        RuleId::NoMultipleSpaceClosedAtx => (28, 'n', 'l', 'a'),
        RuleId::BlanksAroundHeadings => (22, 'b', 's', 'n'),
        RuleId::HeadingStartLeft => (18, 'h', 'n', 'e'),
        RuleId::NoDuplicateHeading => (20, 'n', 'p', 'i'),
        RuleId::SingleH1 => (9, 's', 'e', '_'),
        RuleId::NoTrailingPunctuationHeading => (31, 'n', 'a', 'i'),
        RuleId::NoEmphasisAsHeading => (22, 'n', 'p', 'i'),
        RuleId::FirstLineHeading => (18, 'f', '_', 'i'),
        RuleId::RequiredHeadings => (17, 'r', 'r', 'n'),
        RuleId::UlStyle => (8, 'u', 'y', 'y'),
        RuleId::ListIndent => (11, 'l', 'i', 'e'),
        RuleId::UlIndent => (9, 'u', 'd', 'e'),
        RuleId::OlPrefix => (9, 'o', 'e', 'f'),
        RuleId::ListMarkerSpace => (17, 'l', 'm', 'a'),
        RuleId::BlanksAroundLists => (19, 'b', 's', 's'),
        RuleId::NoTrailingSpaces => (18, 'n', 'a', 'c'),
        RuleId::NoHardTabs => (12, 'n', 'r', 'a'),
        RuleId::NoMultipleBlanks => (18, 'n', 'l', 'n'),
        RuleId::LineLength => (11, 'l', 'l', 'g'),
        RuleId::NoMultipleSpaceBlockquote => (28, 'n', 'l', 'o'),
        RuleId::NoBlanksBlockquote => (20, 'n', 'a', 'o'),
        RuleId::SingleTrailingNewline => (23, 's', 'e', 'i'),
        RuleId::FencedCodeLanguage => (20, 'f', 'd', 'a'),
        RuleId::CodeBlockStyle => (16, 'c', 'b', 'y'),
        RuleId::CodeFenceStyle => (16, 'c', 'f', 'y'),
        RuleId::BlanksAroundFences => (20, 'b', 's', 'c'),
        RuleId::NoBareUrls => (12, 'n', 'r', 'r'),
        RuleId::NoReversedLinks => (17, 'n', 'v', 'n'),
        RuleId::NoEmptyLinks => (14, 'n', 'p', 'n'),
        RuleId::ReferenceLinksImages => (22, 'r', 'e', 'g'),
        RuleId::LinkImageReferenceDefinitions => (32, 'l', 'i', 'o'),
        RuleId::LinkImageStyle => (16, 'l', 'i', 'y'),
        RuleId::LinkFragments => (14, 'l', 'f', 'n'),
        RuleId::RelativeLinkExists => (20, 'r', 'i', 's'),
        RuleId::DescriptiveLinkText => (21, 'd', 'i', 'e'),
        RuleId::NoSpaceInLinks => (17, 'n', 'a', 'n'),
        RuleId::NoSpaceInEmphasis => (20, 'n', 'a', 's'),
        RuleId::NoSpaceInCode => (16, 'n', 'a', 'o'),
        RuleId::EmphasisStyle => (14, 'e', 's', 'y'),
        RuleId::StrongStyle => (12, 's', 'g', 'y'),
        RuleId::NoInlineHtml => (14, 'n', 'l', 't'),
        RuleId::ProperNames => (12, 'p', 'r', 'm'),
        RuleId::CommandsShowOutput => (20, 'c', 'n', 'p'),
        RuleId::HrStyle => (8, 'h', 'y', 'y'),
        RuleId::TablePipeStyle => (16, 't', '_', 'y'),
        RuleId::TableColumnCount => (18, 't', '_', 'u'),
        RuleId::BlanksAroundTables => (20, 'b', 's', 'l'),
        RuleId::TableColumnStyle => (18, 't', '_', 'y'),
    }
}

proof fn lemma_name_key(id: RuleId)
    ensures
        name_key(id.spec_name()) == rule_key(id),
{
    match id {
        RuleId::HeadingHierarchySkip => {
            reveal_strlit("heading_hierarchy_skip");
        },
        RuleId::ImageMissingAlt => {
            reveal_strlit("image_missing_alt");
        },
        RuleId::MissingFrontMatterKey => {
            reveal_strlit("missing_front_matter_key");
        },
        RuleId::HeadingStyle => {
            reveal_strlit("heading_style");
        },
        RuleId::NoMissingSpaceAtx => {
            reveal_strlit("no_missing_space_atx");
        },
        RuleId::NoMultipleSpaceAtx => {
            reveal_strlit("no_multiple_space_atx");
        },
        RuleId::NoMissingSpaceClosedAtx => {
            reveal_strlit("no_missing_space_closed_atx");
        },
        RuleId::NoMultipleSpaceClosedAtx => {
            reveal_strlit("no_multiple_space_closed_atx");
        },
        RuleId::BlanksAroundHeadings => {
            reveal_strlit("blanks_around_headings");
        },
        RuleId::HeadingStartLeft => {
            reveal_strlit("heading_start_left");
        },
        RuleId::NoDuplicateHeading => {
            reveal_strlit("no_duplicate_heading");
        },
        RuleId::SingleH1 => {
            reveal_strlit("single_h1");
        },
        RuleId::NoTrailingPunctuationHeading => {
            reveal_strlit("no_trailing_punctuation_heading");
        },
        RuleId::NoEmphasisAsHeading => {
            reveal_strlit("no_emphasis_as_heading");
        },
        RuleId::FirstLineHeading => {
            reveal_strlit("first_line_heading");
        },
        RuleId::RequiredHeadings => {
            reveal_strlit("required_headings");
        },
        RuleId::UlStyle => {
            reveal_strlit("ul_style");
        },
        RuleId::ListIndent => {
            reveal_strlit("list_indent");
        },
        RuleId::UlIndent => {
            reveal_strlit("ul_indent");
        },
        RuleId::OlPrefix => {
            reveal_strlit("ol_prefix");
        },
        RuleId::ListMarkerSpace => {
            reveal_strlit("list_marker_space");
        },
        RuleId::BlanksAroundLists => {
            reveal_strlit("blanks_around_lists");
        },
        RuleId::NoTrailingSpaces => {
            reveal_strlit("no_trailing_spaces");
        },
        RuleId::NoHardTabs => {
            reveal_strlit("no_hard_tabs");
        },
        RuleId::NoMultipleBlanks => {
            reveal_strlit("no_multiple_blanks");
        },
        RuleId::LineLength => {
            reveal_strlit("line_length");
        },
        RuleId::NoMultipleSpaceBlockquote => {
            reveal_strlit("no_multiple_space_blockquote");
        },
        RuleId::NoBlanksBlockquote => {
            reveal_strlit("no_blanks_blockquote");
        },
        RuleId::SingleTrailingNewline => {
            reveal_strlit("single_trailing_newline");
        },
        RuleId::FencedCodeLanguage => {
            reveal_strlit("fenced_code_language");
        },
        RuleId::CodeBlockStyle => {
            reveal_strlit("code_block_style");
        },
        RuleId::CodeFenceStyle => {
            reveal_strlit("code_fence_style");
        },
        RuleId::BlanksAroundFences => {
            reveal_strlit("blanks_around_fences");
        },
        RuleId::NoBareUrls => {
            reveal_strlit("no_bare_urls");
        },
        RuleId::NoReversedLinks => {
            reveal_strlit("no_reversed_links");
        },
        RuleId::NoEmptyLinks => {
            reveal_strlit("no_empty_links");
        },
        RuleId::ReferenceLinksImages => {
            reveal_strlit("reference_links_images");
        },
        RuleId::LinkImageReferenceDefinitions => {
            reveal_strlit("link_image_reference_definitions");
        },
        RuleId::LinkImageStyle => {
            reveal_strlit("link_image_style");
        },
        RuleId::LinkFragments => {
            reveal_strlit("link_fragments");
        },
        RuleId::RelativeLinkExists => {
            reveal_strlit("relative_link_exists");
        },
        RuleId::DescriptiveLinkText => {
            reveal_strlit("descriptive_link_text");
        },
        RuleId::NoSpaceInLinks => {
            reveal_strlit("no_space_in_links");
        },
        RuleId::NoSpaceInEmphasis => {
            reveal_strlit("no_space_in_emphasis");
        },
        RuleId::NoSpaceInCode => {
            reveal_strlit("no_space_in_code");
        },
        RuleId::EmphasisStyle => {
            reveal_strlit("emphasis_style");
        },
        RuleId::StrongStyle => {
            reveal_strlit("strong_style");
        },
        RuleId::NoInlineHtml => {
            reveal_strlit("no_inline_html");
        },
        RuleId::ProperNames => {
            reveal_strlit("proper_names");
        },
        RuleId::CommandsShowOutput => {
            reveal_strlit("commands_show_output");
        },
        RuleId::HrStyle => {
            reveal_strlit("hr_style");
        },
        RuleId::TablePipeStyle => {
            reveal_strlit("table_pipe_style");
        },
        RuleId::TableColumnCount => {
            reveal_strlit("table_column_count");
        },
        RuleId::BlanksAroundTables => {
            reveal_strlit("blanks_around_tables");
        },
        RuleId::TableColumnStyle => {
            reveal_strlit("table_column_style");
        },
    }
}

/// Distinct rule ids have distinct names, so a name picks out exactly one rule id.
pub proof fn lemma_rule_names_distinct(a: RuleId, b: RuleId)
    ensures
        a.spec_name() == b.spec_name() ==> a == b,
{
    lemma_name_key(a);
    lemma_name_key(b);
}

/// The mq selector a rule primarily corresponds to: the kind of node it inspects.
#[derive(Debug, Clone, Copy, PartialEq, Eq, Structural)]
pub enum NodeSelector {
    /// Any heading (`.h`), or headings of one level (`.h1` ...).
    Heading(Option<u8>),
    Image,
    Yaml,
    Emphasis,
    List,
    Blockquote,
    Code,
    Text,
    Link,
    LinkRef,
    Definition,
    InlineCode,
    Strong,
    Html,
    HorizontalRule,
    Table,
}

impl RuleId {
    /// The selector of each rule that inspects one kind of node.
    pub open spec fn spec_selector(self) -> Option<NodeSelector> {
        match self {
            RuleId::HeadingHierarchySkip | RuleId::HeadingStyle | RuleId::NoMissingSpaceAtx
            | RuleId::NoMultipleSpaceAtx | RuleId::NoMissingSpaceClosedAtx
            | RuleId::NoMultipleSpaceClosedAtx | RuleId::BlanksAroundHeadings
            | RuleId::HeadingStartLeft | RuleId::NoDuplicateHeading
            | RuleId::NoTrailingPunctuationHeading | RuleId::FirstLineHeading
            | RuleId::RequiredHeadings => Some(NodeSelector::Heading(None)),
            RuleId::SingleH1 => Some(NodeSelector::Heading(Some(1))),
            RuleId::ImageMissingAlt => Some(NodeSelector::Image),
            RuleId::MissingFrontMatterKey => Some(NodeSelector::Yaml),
            RuleId::NoEmphasisAsHeading | RuleId::EmphasisStyle | RuleId::NoSpaceInEmphasis => Some(
                NodeSelector::Emphasis,
            ),
            RuleId::UlStyle | RuleId::ListIndent | RuleId::UlIndent | RuleId::OlPrefix
            | RuleId::ListMarkerSpace | RuleId::BlanksAroundLists => Some(NodeSelector::List),
            RuleId::NoMultipleSpaceBlockquote | RuleId::NoBlanksBlockquote => Some(
                NodeSelector::Blockquote,
            ),
            RuleId::FencedCodeLanguage | RuleId::CodeBlockStyle | RuleId::CodeFenceStyle
            | RuleId::BlanksAroundFences | RuleId::CommandsShowOutput => Some(NodeSelector::Code),
            RuleId::NoReversedLinks | RuleId::NoBareUrls | RuleId::ProperNames => Some(
                NodeSelector::Text,
            ),
            RuleId::NoEmptyLinks | RuleId::LinkImageStyle | RuleId::LinkFragments
            | RuleId::RelativeLinkExists | RuleId::DescriptiveLinkText | RuleId::NoSpaceInLinks => Some(
                NodeSelector::Link,
            ),
            RuleId::ReferenceLinksImages => Some(NodeSelector::LinkRef),
            RuleId::LinkImageReferenceDefinitions => Some(NodeSelector::Definition),
            RuleId::NoSpaceInCode => Some(NodeSelector::InlineCode),
            RuleId::StrongStyle => Some(NodeSelector::Strong),
            RuleId::NoInlineHtml => Some(NodeSelector::Html),
            RuleId::HrStyle => Some(NodeSelector::HorizontalRule),
            RuleId::TablePipeStyle | RuleId::TableColumnCount | RuleId::BlanksAroundTables
            | RuleId::TableColumnStyle => Some(NodeSelector::Table),
            RuleId::NoTrailingSpaces | RuleId::NoHardTabs | RuleId::NoMultipleBlanks
            | RuleId::LineLength | RuleId::SingleTrailingNewline => None,
        }
    }

    /// The mq selector this rule corresponds to, where one applies; `None` for rules that read
    /// the source text line by line.
    pub fn selector(&self) -> (r: Option<NodeSelector>)
        ensures
            r == self.spec_selector(),
    {
        match self {
            RuleId::HeadingHierarchySkip | RuleId::HeadingStyle | RuleId::NoMissingSpaceAtx
            | RuleId::NoMultipleSpaceAtx | RuleId::NoMissingSpaceClosedAtx
            | RuleId::NoMultipleSpaceClosedAtx | RuleId::BlanksAroundHeadings
            | RuleId::HeadingStartLeft | RuleId::NoDuplicateHeading
            | RuleId::NoTrailingPunctuationHeading | RuleId::FirstLineHeading
            | RuleId::RequiredHeadings => Some(NodeSelector::Heading(None)),
            RuleId::SingleH1 => Some(NodeSelector::Heading(Some(1))),
            RuleId::ImageMissingAlt => Some(NodeSelector::Image),
            RuleId::MissingFrontMatterKey => Some(NodeSelector::Yaml),
            RuleId::NoEmphasisAsHeading | RuleId::EmphasisStyle | RuleId::NoSpaceInEmphasis => Some(
                NodeSelector::Emphasis,
            ),
            RuleId::UlStyle | RuleId::ListIndent | RuleId::UlIndent | RuleId::OlPrefix
            | RuleId::ListMarkerSpace | RuleId::BlanksAroundLists => Some(NodeSelector::List),
            RuleId::NoMultipleSpaceBlockquote | RuleId::NoBlanksBlockquote => Some(
                NodeSelector::Blockquote,
            ),
            RuleId::FencedCodeLanguage | RuleId::CodeBlockStyle | RuleId::CodeFenceStyle
            | RuleId::BlanksAroundFences | RuleId::CommandsShowOutput => Some(NodeSelector::Code),
            RuleId::NoReversedLinks | RuleId::NoBareUrls | RuleId::ProperNames => Some(
                NodeSelector::Text,
            ),
            RuleId::NoEmptyLinks | RuleId::LinkImageStyle | RuleId::LinkFragments
            | RuleId::RelativeLinkExists | RuleId::DescriptiveLinkText | RuleId::NoSpaceInLinks => Some(
                NodeSelector::Link,
            ),
            RuleId::ReferenceLinksImages => Some(NodeSelector::LinkRef),
            RuleId::LinkImageReferenceDefinitions => Some(NodeSelector::Definition),
            RuleId::NoSpaceInCode => Some(NodeSelector::InlineCode),
            RuleId::StrongStyle => Some(NodeSelector::Strong),
            RuleId::NoInlineHtml => Some(NodeSelector::Html),
            RuleId::HrStyle => Some(NodeSelector::HorizontalRule),
            RuleId::TablePipeStyle | RuleId::TableColumnCount | RuleId::BlanksAroundTables
            | RuleId::TableColumnStyle => Some(NodeSelector::Table),
            RuleId::NoTrailingSpaces | RuleId::NoHardTabs | RuleId::NoMultipleBlanks
            | RuleId::LineLength | RuleId::SingleTrailingNewline => None,
        }
    }
}

impl NodeSelector {
    /// The selector as mq writes it (`mq_lang::Selector`'s `Display`): `.h`, `.h1`, `.image`, ...
    pub open spec fn spec_text(self) -> Seq<char> {
        match self {
            NodeSelector::Heading(None) => ".h"@,
            NodeSelector::Heading(Some(n)) => ".h"@ + dec(n as nat),
            NodeSelector::Image => ".image"@,
            NodeSelector::Yaml => ".yaml"@,
            NodeSelector::Emphasis => ".emphasis"@,
            NodeSelector::List => ".list"@,
            NodeSelector::Blockquote => ".blockquote"@,
            NodeSelector::Code => ".code"@,
            NodeSelector::Text => ".text"@,
            NodeSelector::Link => ".link"@,
            NodeSelector::LinkRef => ".link_ref"@,
            NodeSelector::Definition => ".definition"@,
            NodeSelector::InlineCode => ".code_inline"@,
            NodeSelector::Strong => ".strong"@,
            NodeSelector::Html => ".html"@,
            NodeSelector::HorizontalRule => ".horizontal_rule"@,
            NodeSelector::Table => ".table"@,
        }
    }

    /// The selector as mq writes it.
    pub fn text(&self) -> (r: String)
        ensures
            r@ == self.spec_text(),
    {
        match self {
            NodeSelector::Heading(None) => String::from_str(".h"),
            NodeSelector::Heading(Some(n)) => {
                let mut r = String::from_str(".h");
                r.append(fmt_usize(*n as usize).as_str());
                r
            },
            NodeSelector::Image => String::from_str(".image"),
            NodeSelector::Yaml => String::from_str(".yaml"),
            NodeSelector::Emphasis => String::from_str(".emphasis"),
            NodeSelector::List => String::from_str(".list"),
            NodeSelector::Blockquote => String::from_str(".blockquote"),
            NodeSelector::Code => String::from_str(".code"),
            NodeSelector::Text => String::from_str(".text"),
            NodeSelector::Link => String::from_str(".link"),
            NodeSelector::LinkRef => String::from_str(".link_ref"),
            NodeSelector::Definition => String::from_str(".definition"),
            NodeSelector::InlineCode => String::from_str(".code_inline"),
            NodeSelector::Strong => String::from_str(".strong"),
            NodeSelector::Html => String::from_str(".html"),
            NodeSelector::HorizontalRule => String::from_str(".horizontal_rule"),
            NodeSelector::Table => String::from_str(".table"),
        }
    }
}

} // verus!
