//! The document model the rules read: a parsed Markdown document as plain values.
//!
//! `mq-markdown` parses the source into a tree of nodes. The rules read only a few facts of
//! each node (its kind, heading depth or list level, text value, link target, image alt text,
//! code fence and language, source position), so a [`Document`] holds those facts for every
//! node, in document order (each node before its children), and separately for the top-level
//! nodes.
use crate::text::{chars_of, str_eq};
use crate::Range;
use vstd::prelude::*;

verus! {

#[verifier::external_type_specification]
#[verifier::external_body]
pub struct ExMarkdown(mq_markdown::Markdown);

#[verifier::external_type_specification]
#[verifier::external_body]
pub struct ExNode(mq_markdown::Node);

/// The kinds of node the rules tell apart.
#[derive(Debug, Clone, Copy, PartialEq, Eq, Structural)]
pub enum NodeKind {
    Heading,
    List,
    Code,
    CodeInline,
    Link,
    LinkRef,
    Image,
    ImageRef,
    Definition,
    Html,
    Yaml,
    Toml,
    Emphasis,
    Strong,
    Blockquote,
    TableRow,
    TableCell,
    TableAlign,
    HorizontalRule,
    Text,
    Other,
}

/// What the rules read of one node.
#[derive(Debug, Clone)]
pub struct DocNode {
    pub kind: NodeKind,
    /// A heading's depth (1 to 6) or a list item's nesting level; 0 for other nodes.
    pub depth: usize,
    /// The node's text content (`Node::value`): a code block's code, a heading's text, ...
    pub value: String,
    /// A link's, image's or definition's destination.
    pub url: String,
    /// A reference's or definition's normalized identifier.
    pub ident: String,
    /// A reference's or definition's identifier as written, if recorded.
    pub label: Option<String>,
    /// An image's alternative text.
    pub alt: String,
    /// A code block's language, if any.
    pub lang: Option<String>,
    /// Whether a code block is fenced rather than indented.
    pub fence: bool,
    /// Where the node is in the source, if known.
    pub position: Option<Range>,
    /// A link's text as written: its children rendered back to Markdown and joined; empty
    /// for other nodes.
    pub link_text: String,
}

/// A parsed document: every node in document order, and the top-level nodes on their own.
#[derive(Debug, Clone)]
pub struct Document {
    pub nodes: Vec<DocNode>,
    pub top: Vec<DocNode>,
}

/// A position with 1-based lines and columns, as the parser reports them.
pub open spec fn position_ok(p: Option<Range>) -> bool {
    match p {
        Some(r) => r.start_line >= 1 && r.end_line >= 1 && r.start_column >= 1 && r.end_column >= 1,
        None => true,
    }
}

impl Document {
    /// Every known position has 1-based lines and columns.
    pub open spec fn wf(&self) -> bool {
        &&& forall|i: int| 0 <= i < self.nodes@.len() ==> position_ok(#[trigger] self.nodes@[i].position)
        &&& forall|i: int| 0 <= i < self.top@.len() ==> position_ok(#[trigger] self.top@[i].position)
    }
}

/// Keeps a position only if its lines and columns are 1-based.
fn checked_position(p: Option<Range>) -> (r: Option<Range>)
    ensures
        position_ok(r),
        position_ok(p) ==> r == p,
{
    match p {
        Some(x) => if x.start_line >= 1 && x.end_line >= 1 && x.start_column >= 1 && x.end_column >= 1 {
            Some(x)
        } else {
            None
        },
        None => None,
    }
}

/// The kind named by `mq-markdown`'s node name.
pub open spec fn spec_node_kind(name: Seq<char>) -> NodeKind {
    if name == "h1"@ || name == "h2"@ || name == "h3"@ || name == "h4"@ || name == "h5"@ || name
        == "h6"@ {
        NodeKind::Heading
    } else if name == "list"@ {
        NodeKind::List
    } else if name == "code"@ {
        NodeKind::Code
    } else if name == "code_inline"@ {
        NodeKind::CodeInline
    } else if name == "link"@ {
        NodeKind::Link
    } else if name == "link_ref"@ {
        NodeKind::LinkRef
    } else if name == "image"@ {
        NodeKind::Image
    } else if name == "image_ref"@ {
        NodeKind::ImageRef
    } else if name == "definition"@ {
        NodeKind::Definition
    } else if name == "html"@ {
        NodeKind::Html
    } else if name == "yaml"@ {
        NodeKind::Yaml
    } else if name == "toml"@ {
        NodeKind::Toml
    } else if name == "emphasis"@ {
        NodeKind::Emphasis
    } else if name == "strong"@ {
        NodeKind::Strong
    } else if name == "blockquote"@ {
        NodeKind::Blockquote
    } else if name == "table_row"@ {
        NodeKind::TableRow
    } else if name == "table_cell"@ {
        NodeKind::TableCell
    } else if name == "table_align"@ {
        NodeKind::TableAlign
    } else if name == "Horizontal_rule"@ {
        NodeKind::HorizontalRule
    } else if name == "text"@ {
        NodeKind::Text
    } else {
        NodeKind::Other
    }
}

/// The kind named by a node name.
pub fn node_kind(name: &str) -> (r: NodeKind)
    ensures
        r == spec_node_kind(name@),
{
    if str_eq(name, "h1") || str_eq(name, "h2") || str_eq(name, "h3") || str_eq(name, "h4")
        || str_eq(name, "h5") || str_eq(name, "h6") {
        NodeKind::Heading
    } else if str_eq(name, "list") {
        NodeKind::List
    } else if str_eq(name, "code") {
        NodeKind::Code
    } else if str_eq(name, "code_inline") {
        NodeKind::CodeInline
    } else if str_eq(name, "link") {
        NodeKind::Link
    } else if str_eq(name, "link_ref") {
        NodeKind::LinkRef
    } else if str_eq(name, "image") {
        NodeKind::Image
    } else if str_eq(name, "image_ref") {
        NodeKind::ImageRef
    } else if str_eq(name, "definition") {
        NodeKind::Definition
    } else if str_eq(name, "html") {
        NodeKind::Html
    } else if str_eq(name, "yaml") {
        NodeKind::Yaml
    } else if str_eq(name, "toml") {
        NodeKind::Toml
    } else if str_eq(name, "emphasis") {
        NodeKind::Emphasis
    } else if str_eq(name, "strong") {
        NodeKind::Strong
    } else if str_eq(name, "blockquote") {
        NodeKind::Blockquote
    } else if str_eq(name, "table_row") {
        NodeKind::TableRow
    } else if str_eq(name, "table_cell") {
        NodeKind::TableCell
    } else if str_eq(name, "table_align") {
        NodeKind::TableAlign
    } else if str_eq(name, "Horizontal_rule") {
        NodeKind::HorizontalRule
    } else if str_eq(name, "text") {
        NodeKind::Text
    } else {
        NodeKind::Other
    }
}

/// Whether `mq-markdown`'s parser rejects `source`, and with what message: `None` where it
/// accepts the source.
pub uninterp spec fn markdown_parse_error(source: Seq<char>) -> Option<Seq<char>>;

/// Parses Markdown source with `mq-markdown` (`str::parse::<Markdown>`), giving the parser's
/// error message where it fails. Whether it fails, and with which message, is named
/// `markdown_parse_error` of the source (the parser depends on the source alone); nothing is
/// stated of the tree it builds.
#[verifier::external_body]
pub(crate) fn parse_markdown(source: &str) -> (r: Result<mq_markdown::Markdown, String>)
    ensures
        r is Ok ==> markdown_parse_error(source@) is None,
        r matches Err(e) ==> markdown_parse_error(source@) == Some(e@),
{
    match source.parse::<mq_markdown::Markdown>() {
        Ok(doc) => Ok(doc),
        Err(e) => Err(e.to_string()),
    }
}

/// The top-level nodes of a parsed document (`Markdown::nodes`).
#[verifier::external_body]
fn top_level_nodes(doc: &mq_markdown::Markdown) -> Vec<mq_markdown::Node> {
    doc.nodes.clone()
}

/// A node's children (`Node::children`).
#[verifier::external_body]
fn node_children(node: &mq_markdown::Node) -> Vec<mq_markdown::Node> {
    node.children()
}

/// A node rendered back to Markdown (`ToString`). Nothing is stated of the text, and that the
/// renderer returns without panicking on every node is assumed.
#[verifier::external_body]
fn node_markdown(node: &mq_markdown::Node) -> String {
    node.to_string()
}

/// A node's name, such as `h2` or `code` (`Node::name`).
#[verifier::external_body]
fn node_name(node: &mq_markdown::Node) -> String {
    node.name().to_string()
}

/// A node's text content (`Node::value`).
#[verifier::external_body]
fn node_value(node: &mq_markdown::Node) -> String {
    node.value()
}

/// A node's position (`Node::position`), its line and column numbers as `usize`.
#[verifier::external_body]
pub(crate) fn node_position(node: &mq_markdown::Node) -> Option<Range> {
    node.position().map(
        |p|
            Range {
                start_line: p.start.line as usize,
                start_column: p.start.column as usize,
                end_line: p.end.line as usize,
                end_column: p.end.column as usize,
            },
    )
}

/// A node's string attribute `key` (`Node::attr` giving `AttrValue::String`).
#[verifier::external_body]
fn node_attr_text(node: &mq_markdown::Node, key: &str) -> Option<String> {
    match node.attr(key) {
        Some(mq_markdown::AttrValue::String(s)) => Some(s),
        _ => None,
    }
}

/// A node's integer attribute `key` (`Node::attr` giving `AttrValue::Integer`).
#[verifier::external_body]
fn node_attr_int(node: &mq_markdown::Node, key: &str) -> Option<i64> {
    match node.attr(key) {
        Some(mq_markdown::AttrValue::Integer(i)) => Some(i),
        _ => None,
    }
}

/// A node's boolean attribute `key` (`Node::attr` giving `AttrValue::Boolean`).
#[verifier::external_body]
fn node_attr_flag(node: &mq_markdown::Node, key: &str) -> Option<bool> {
    match node.attr(key) {
        Some(mq_markdown::AttrValue::Boolean(b)) => Some(b),
        _ => None,
    }
}

fn text_or_empty(s: Option<String>) -> (r: String)
    ensures
        s matches Some(t) ==> r == t,
        s is None ==> r@ == Seq::<char>::empty(),
{
    match s {
        Some(t) => t,
        None => String::new(),
    }
}

/// The facts the rules read of one node.
fn describe(node: &mq_markdown::Node) -> (r: DocNode)
    ensures
        position_ok(r.position),
        r.kind == NodeKind::Heading ==> r.depth <= 6,
        r.kind == NodeKind::List ==> r.depth <= 1_000_000,
        r.kind != NodeKind::Heading && r.kind != NodeKind::List ==> r.depth == 0,
        r.kind != NodeKind::Link ==> r.link_text@.len() == 0,
{
    let name = node_name(node);
    let kind = node_kind(name.as_str());
    let depth: usize = match kind {
        NodeKind::Heading => match node_attr_int(node, "depth") {
            Some(d) => if 0 <= d && d <= 6 {
                d as usize
            } else {
                0
            },
            None => 0,
        },
        NodeKind::List => match node_attr_int(node, "level") {
            Some(d) => if 0 <= d && d <= 1_000_000 {
                d as usize
            } else {
                0
            },
            None => 0,
        },
        _ => 0,
    };
    let fence = match node_attr_flag(node, "fence") {
        Some(b) => b,
        None => false,
    };
    let link_text = if kind == NodeKind::Link {
        let children = node_children(node);
        let mut t = String::new();
        let mut i: usize = 0;
        while i < children.len()
            invariant
                i <= children@.len(),
            decreases children@.len() - i,
        {
            t.append(node_markdown(&children[i]).as_str());
            i = i + 1;
        }
        t
    } else {
        String::new()
    };
    DocNode {
        kind,
        depth,
        value: node_value(node),
        url: text_or_empty(node_attr_text(node, "url")),
        ident: text_or_empty(node_attr_text(node, "ident")),
        label: node_attr_text(node, "label"),
        alt: text_or_empty(node_attr_text(node, "alt")),
        lang: node_attr_text(node, "lang"),
        fence,
        position: checked_position(node_position(node)),
        link_text,
    }
}

/// Appends `nodes` and their descendants, each before its children, descending at most
/// `budget` levels below `nodes`.
fn collect(nodes: &Vec<mq_markdown::Node>, budget: usize, out: &mut Vec<DocNode>)
    requires
        forall|j: int| 0 <= j < old(out)@.len() ==> position_ok(#[trigger] old(out)@[j].position),
    ensures
        final(out)@.len() >= old(out)@.len() + nodes@.len(),
        forall|j: int| 0 <= j < final(out)@.len() ==> position_ok(#[trigger] final(out)@[j].position),
    decreases budget,
{
    let mut i: usize = 0;
    while i < nodes.len()
        invariant
            i <= nodes@.len(),
            out@.len() >= old(out)@.len() + i,
            forall|j: int| 0 <= j < out@.len() ==> position_ok(#[trigger] out@[j].position),
        decreases nodes@.len() - i,
    {
        out.push(describe(&nodes[i]));
        if budget > 0 {
            let children = node_children(&nodes[i]);
            collect(&children, budget - 1, out);
        }
        i = i + 1;
    }
}

/// The document model of parsed `doc`, whose source is `source`. Every level of nesting in
/// Markdown takes at least one character of the source, so descending no more levels than
/// the source has characters reaches every node.
pub fn document_of(doc: &mq_markdown::Markdown, source: &str) -> (r: Document)
    ensures
        r.nodes@.len() >= r.top@.len(),
        r.wf(),
{
    let budget = chars_of(source).len();
    let top_nodes = top_level_nodes(doc);
    let mut top: Vec<DocNode> = Vec::new();
    let mut i: usize = 0;
    while i < top_nodes.len()
        invariant
            i <= top_nodes@.len(),
            top@.len() == i,
            forall|j: int| 0 <= j < top@.len() ==> position_ok(#[trigger] top@[j].position),
        decreases top_nodes@.len() - i,
    {
        top.push(describe(&top_nodes[i]));
        i = i + 1;
    }
    let mut nodes: Vec<DocNode> = Vec::new();
    collect(&top_nodes, budget, &mut nodes);
    Document { nodes, top }
}

/// Parses `source` and builds its document model, or gives the error `mq-markdown` reports:
/// it succeeds exactly where the parser accepts the source.
pub fn parse_document(source: &str) -> (r: Result<Document, String>)
    ensures
        r is Ok <==> markdown_parse_error(source@) is None,
        r matches Err(e) ==> markdown_parse_error(source@) == Some(e@),
        r matches Ok(d) ==> d.wf(),
{
    match parse_markdown(source) {
        Ok(doc) => Ok(document_of(&doc, source)),
        Err(e) => Err(e),
    }
}

} // verus!
