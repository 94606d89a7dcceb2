//! Markdown syntax trees, and the calls that parse markdown and highlight
//! code blocks.

use markdown::mdast::Node;
use vstd::prelude::*;

verus! {

/// A node of a markdown syntax tree, with the parts of each node kind that
/// rendering reads. Kinds that rendering never handles are `Other`. Every
/// node keeps in `debug` the parser's debug description of itself, which
/// error messages quote.
#[derive(Debug)]
pub enum MdNode {
    Root { children: Vec<MdNode>, debug: String },
    Paragraph { children: Vec<MdNode>, debug: String },
    Heading { depth: u8, children: Vec<MdNode>, debug: String },
    Text { value: String, debug: String },
    Strong { children: Vec<MdNode>, debug: String },
    Emphasis { children: Vec<MdNode>, debug: String },
    Delete { children: Vec<MdNode>, debug: String },
    InlineCode { value: String, debug: String },
    Link { url: String, children: Vec<MdNode>, debug: String },
    Break { debug: String },
    Code { lang: Option<String>, value: String, debug: String },
    List(MdList),
    ListItem { children: Vec<MdNode>, debug: String },
    Other { debug: String },
}

/// A list: ordered lists number their items from `start`.
#[derive(Debug)]
pub struct MdList {
    pub ordered: bool,
    pub start: Option<u32>,
    pub children: Vec<MdNode>,
    pub debug: String,
}

/// How a node is named in error messages: the parser's debug description
/// of the node.
pub open spec fn node_debug(node: MdNode) -> Seq<char> {
    match node {
        MdNode::Root { debug, .. } => debug@,
        MdNode::Paragraph { debug, .. } => debug@,
        MdNode::Heading { debug, .. } => debug@,
        MdNode::Text { debug, .. } => debug@,
        MdNode::Strong { debug, .. } => debug@,
        MdNode::Emphasis { debug, .. } => debug@,
        MdNode::Delete { debug, .. } => debug@,
        MdNode::InlineCode { debug, .. } => debug@,
        MdNode::Link { debug, .. } => debug@,
        MdNode::Break { debug } => debug@,
        MdNode::Code { debug, .. } => debug@,
        MdNode::List(l) => l.debug@,
        MdNode::ListItem { debug, .. } => debug@,
        MdNode::Other { debug } => debug@,
    }
}

/// How a node is named in error messages.
pub fn debug_text(node: &MdNode) -> (s: String)
    ensures
        s@ == node_debug(*node),
{
    match node {
        MdNode::Root { debug, .. } => debug.clone(),
        MdNode::Paragraph { debug, .. } => debug.clone(),
        MdNode::Heading { debug, .. } => debug.clone(),
        MdNode::Text { debug, .. } => debug.clone(),
        MdNode::Strong { debug, .. } => debug.clone(),
        MdNode::Emphasis { debug, .. } => debug.clone(),
        MdNode::Delete { debug, .. } => debug.clone(),
        MdNode::InlineCode { debug, .. } => debug.clone(),
        MdNode::Link { debug, .. } => debug.clone(),
        MdNode::Break { debug } => debug.clone(),
        MdNode::Code { debug, .. } => debug.clone(),
        MdNode::List(l) => l.debug.clone(),
        MdNode::ListItem { debug, .. } => debug.clone(),
        MdNode::Other { debug } => debug.clone(),
    }
}

#[verifier::external_type_specification]
#[verifier::external_body]
pub struct ExMdastNode(Node);

/// The syntax tree that the `markdown` crate's `to_mdast` parser (GitHub
/// flavored options) builds for a text, or the text of its error message.
pub uninterp spec fn markdown_syntax_tree(text: Seq<char>) -> Result<MdNode, Seq<char>>;

/// Converts the children of a `markdown` syntax tree node, in order.
#[verifier::external_body]
fn kids_of(children: &Vec<Node>) -> Vec<MdNode> {
    children.iter().map(node_from_mdast).collect()
}

/// Converts a block-level `markdown` syntax tree node, one variant to one
/// variant, keeping its debug description; lists and code go to
/// `list_from_mdast`.
#[verifier::external_body]
fn node_from_mdast(node: &Node) -> MdNode {
    let debug = format!("{:?}", node);
    match node {
        Node::Root(n) => MdNode::Root { children: kids_of(&n.children), debug },
        Node::Paragraph(n) => MdNode::Paragraph { children: kids_of(&n.children), debug },
        Node::Heading(n) => MdNode::Heading { depth: n.depth, children: kids_of(&n.children), debug },
        Node::Text(n) => MdNode::Text { value: n.value.clone(), debug },
        _ => list_from_mdast(node, debug),
    }
}

/// Converts a code block, list, list item or bold text, one variant to one
/// variant, with the node's debug description `debug`; other inline nodes
/// go to `inline_from_mdast`.
#[verifier::external_body]
fn list_from_mdast(node: &Node, debug: String) -> MdNode {
    match node {
        Node::Code(n) => MdNode::Code { lang: n.lang.clone(), value: n.value.clone(), debug },
        Node::List(n) => MdNode::List(MdList { ordered: n.ordered, start: n.start, children: kids_of(&n.children), debug }),
        Node::ListItem(n) => MdNode::ListItem { children: kids_of(&n.children), debug },
        Node::Strong(n) => MdNode::Strong { children: kids_of(&n.children), debug },
        _ => inline_from_mdast(node, debug),
    }
}

/// Converts an inline `markdown` syntax tree node, one variant to one
/// variant, with the node's debug description `debug`; kinds that rendering
/// does not handle become `Other`.
#[verifier::external_body]
fn inline_from_mdast(node: &Node, debug: String) -> MdNode {
    match node {
        Node::Emphasis(n) => MdNode::Emphasis { children: kids_of(&n.children), debug },
        Node::Delete(n) => MdNode::Delete { children: kids_of(&n.children), debug },
        Node::InlineCode(n) => MdNode::InlineCode { value: n.value.clone(), debug },
        Node::Link(n) => MdNode::Link { url: n.url.clone(), children: kids_of(&n.children), debug },
        Node::Break(_) => MdNode::Break { debug },
        _ => MdNode::Other { debug },
    }
}

/// Parses markdown with the `markdown` crate (`to_mdast` with GitHub
/// flavored options). The contract claims only that the result is the named
/// tree (or error message) of the text.
#[verifier::external_body]
pub(crate) fn parse_markdown(text: &str) -> (r: Result<MdNode, String>)
    ensures
        match r {
            Ok(n) => markdown_syntax_tree(text@) == Ok::<MdNode, Seq<char>>(n),
            Err(e) => markdown_syntax_tree(text@) == Err::<MdNode, Seq<char>>(e@),
        },
{
    match markdown::to_mdast(text, &markdown::ParseOptions::gfm()) {
        Ok(node) => Ok(node_from_mdast(&node)),
        Err(message) => Err(message.to_string()),
    }
}

/// One highlighted piece of a code block: its font style bits (bold 1,
/// underline 2, italic 4), its foreground color channels and its text.
#[derive(Debug)]
pub struct HighlightPiece {
    pub font_style: u8,
    pub red: u8,
    pub green: u8,
    pub blue: u8,
    pub alpha: u8,
    pub text: String,
}

/// The abstract value of a [`HighlightPiece`].
pub struct HighlightView {
    pub font_style: u8,
    pub red: u8,
    pub green: u8,
    pub blue: u8,
    pub alpha: u8,
    pub text: Seq<char>,
}

impl View for HighlightPiece {
    type V = HighlightView;

    open spec fn view(&self) -> HighlightView {
        HighlightView {
            font_style: self.font_style,
            red: self.red,
            green: self.green,
            blue: self.blue,
            alpha: self.alpha,
            text: self.text@,
        }
    }
}

/// The pieces that `syntect`, with its default syntaxes and themes, splits
/// a code block into when highlighting it in a language (looked up by name,
/// then by file extension) with a theme; `None` where the language or the
/// theme is unknown or highlighting fails.
pub uninterp spec fn highlighted_code(code: Seq<char>, lang: Seq<char>, theme: Seq<char>) -> Option<
    Seq<HighlightView>,
>;

/// Highlights a code block with `syntect` (default syntaxes and themes),
/// line by line. The contract claims only that the result is the named one.
#[verifier::external_body]
pub(crate) fn highlight_code(code: &str, lang: &str, theme: &str) -> (r: Option<Vec<HighlightPiece>>)
    ensures
        match r {
            Some(v) => highlighted_code(code@, lang@, theme@) == Some(v@.map_values(|p: HighlightPiece| p@)),
            None => highlighted_code(code@, lang@, theme@) is None,
        },
{
    let ps = syntect::parsing::SyntaxSet::load_defaults_newlines();
    let ts = syntect::highlighting::ThemeSet::load_defaults();
    let syntax = ps.find_syntax_by_name(lang).or(ps.find_syntax_by_extension(lang))?;
    let mut h = syntect::easy::HighlightLines::new(syntax, ts.themes.get(theme)?);
    let mut pieces = Vec::new();
    for line in syntect::util::LinesWithEndings::from(code) {
        for (s, t) in h.highlight_line(line, &ps).ok()? {
            let (c, f) = (s.foreground, s.font_style.bits());
            pieces.push(HighlightPiece { font_style: f, red: c.r, green: c.g, blue: c.b, alpha: c.a, text: t.to_string() });
        }
    }
    Some(pieces)
}

} // verus!
