//! Turning a markdown syntax tree into styled text spans.

use super::style::{
    bullet_for, get_bullet_for_indentation_level, get_header_font_size, header_font_size, plain_span,
    spans_view, errors_view, text_span, BevyMarkdown, BevyMarkdownError, ErrorView, FontSlant,
    InlineStyleType, SpanView, TextSpan, TextSpanMetadata, WEIGHT_BOLD,
};
use super::tree::{debug_text, node_debug, MdList, MdNode};
use crate::text::{decimal, push_decimal, push_str};
use vstd::prelude::*;

verus! {

/// What rendering part of a tree gives: spans, and the messages of the
/// transform errors met on the way, both in document order.
pub struct Rendered {
    pub spans: Seq<SpanView>,
    pub errors: Seq<Seq<char>>,
}

/// Nothing rendered.
pub open spec fn no_output() -> Rendered {
    Rendered { spans: Seq::empty(), errors: Seq::empty() }
}

/// One output followed by another.
pub open spec fn then(a: Rendered, b: Rendered) -> Rendered {
    Rendered { spans: a.spans + b.spans, errors: a.errors + b.errors }
}

/// A single span.
pub open spec fn one_span(s: SpanView) -> Rendered {
    Rendered { spans: seq![s], errors: Seq::empty() }
}

/// A single transform error.
pub open spec fn one_error(info: Seq<char>) -> Rendered {
    Rendered { spans: Seq::empty(), errors: seq![info] }
}

/// Transform errors with the given messages.
pub open spec fn transform_errors(infos: Seq<Seq<char>>) -> Seq<ErrorView> {
    infos.map_values(|i: Seq<char>| ErrorView::Transform(i))
}

/// The metadata of a span that is part of a link to `data`, if any.
pub open spec fn link_meta(data: Option<Seq<char>>) -> Option<Option<Seq<char>>> {
    match data {
        Some(l) => Some(Some(l)),
        None => None,
    }
}

/// A text span in an inline style: strong text is bold, emphasized text is
/// italic.
pub open spec fn styled_text_span(
    text: Seq<char>,
    style: u8,
    color: Option<u32>,
    size: Option<u32>,
    data: Option<Seq<char>>,
) -> SpanView {
    let weigth = match InlineStyleType::spec_from_u8(style) {
        InlineStyleType::Strong => Some(WEIGHT_BOLD),
        InlineStyleType::StrongEmphasis => Some(WEIGHT_BOLD),
        _ => None,
    };
    let slant = match InlineStyleType::spec_from_u8(style) {
        InlineStyleType::Emphasis => Some(FontSlant::Italic),
        InlineStyleType::StrongEmphasis => Some(FontSlant::Italic),
        _ => None,
    };
    SpanView { text, font_size: size, weigth, style: slant, color, metadata: link_meta(data) }
}

/// The message of a nesting that rendering does not handle.
pub open spec fn nesting_message() -> Seq<char> {
    "nesting is not implemented"@
}

/// Rendering an inline node in an inherited style: `style` is the style
/// code, `color`, `size` and `data` the forced color, size and link target.
/// Emphasis and strong add their flag to the style, a link forces the link
/// color and its target, inline code takes the inline code color.
pub open spec fn inline_out(
    node: MdNode,
    link: u32,
    inline_code: u32,
    style: u8,
    color: Option<u32>,
    size: Option<u32>,
    data: Option<Seq<char>>,
) -> Rendered
    decreases node,
{
    match node {
        MdNode::InlineCode { value, .. } => one_span(
            SpanView {
                text: value@,
                font_size: size,
                weigth: None,
                style: None,
                color: Some(inline_code),
                metadata: link_meta(data),
            },
        ),
        MdNode::Emphasis { children, .. } => inline_seq_out(
            children@,
            link,
            inline_code,
            style | 2u8,
            color,
            size,
            data,
        ),
        MdNode::Strong { children, .. } => inline_seq_out(
            children@,
            link,
            inline_code,
            style | 1u8,
            color,
            size,
            data,
        ),
        MdNode::Text { value, .. } => one_span(styled_text_span(value@, style, color, size, data)),
        MdNode::Link { url, children, .. } => inline_seq_out(
            children@,
            link,
            inline_code,
            style,
            Some(link),
            size,
            Some(url@),
        ),
        _ => one_error(nesting_message()),
    }
}

/// Rendering a sequence of inline nodes, one after another.
pub open spec fn inline_seq_out(
    nodes: Seq<MdNode>,
    link: u32,
    inline_code: u32,
    style: u8,
    color: Option<u32>,
    size: Option<u32>,
    data: Option<Seq<char>>,
) -> Rendered
    decreases nodes,
{
    if nodes.len() == 0 {
        no_output()
    } else {
        then(
            inline_seq_out(nodes.drop_last(), link, inline_code, style, color, size, data),
            inline_out(nodes.last(), link, inline_code, style, color, size, data),
        )
    }
}

/// Whether an inline node holds no link, at any depth of bold and italic.
pub open spec fn link_free(node: MdNode) -> bool
    decreases node,
{
    match node {
        MdNode::Link { .. } => false,
        MdNode::Emphasis { children, .. } => seq_link_free(children@),
        MdNode::Strong { children, .. } => seq_link_free(children@),
        _ => true,
    }
}

/// Whether inline nodes hold no link.
pub open spec fn seq_link_free(nodes: Seq<MdNode>) -> bool
    decreases nodes,
{
    if nodes.len() == 0 {
        true
    } else {
        seq_link_free(nodes.drop_last()) && link_free(nodes.last())
    }
}

/// Whether every span leads to a link target.
pub open spec fn all_linked(spans: Seq<SpanView>) -> bool {
    forall|i: int| 0 <= i < spans.len() ==> (#[trigger] spans[i]).metadata matches Some(Some(_))
}

/// Whether every span leads to the link target `url`.
pub open spec fn all_link_to(spans: Seq<SpanView>, url: Seq<char>) -> bool {
    forall|i: int| 0 <= i < spans.len() ==> (#[trigger] spans[i]).metadata == Some(Some(url))
}

proof fn lemma_linked_then(a: Rendered, b: Rendered, url: Seq<char>)
    ensures
        all_linked(a.spans) && all_linked(b.spans) ==> all_linked(then(a, b).spans),
        all_link_to(a.spans, url) && all_link_to(b.spans, url) ==> all_link_to(then(a, b).spans, url),
{
    let s = then(a, b).spans;
    assert forall|i: int| 0 <= i < s.len() implies s[i] == (if i < a.spans.len() {
        a.spans[i]
    } else {
        b.spans[i - a.spans.len()]
    }) by {}
}

/// Text rendered inside a link keeps the link: with a link target `url`,
/// every span of an inline node (text, inline code, bold or italic text)
/// leads to a link target, and to `url` itself unless the node holds a
/// link of its own.
pub proof fn lemma_inline_spans_keep_link(
    node: MdNode,
    link: u32,
    inline_code: u32,
    style: u8,
    color: Option<u32>,
    size: Option<u32>,
    url: Seq<char>,
)
    ensures
        all_linked(inline_out(node, link, inline_code, style, color, size, Some(url)).spans),
        link_free(node) ==> all_link_to(
            inline_out(node, link, inline_code, style, color, size, Some(url)).spans,
            url,
        ),
    decreases node,
{
    match node {
        MdNode::Emphasis { children, .. } => lemma_inline_seq_spans_keep_link(
            children@,
            link,
            inline_code,
            style | 2u8,
            color,
            size,
            url,
        ),
        MdNode::Strong { children, .. } => lemma_inline_seq_spans_keep_link(
            children@,
            link,
            inline_code,
            style | 1u8,
            color,
            size,
            url,
        ),
        MdNode::Link { url: inner, children, .. } => lemma_inline_seq_spans_keep_link(
            children@,
            link,
            inline_code,
            style,
            Some(link),
            size,
            inner@,
        ),
        _ => {},
    }
}

/// Inline nodes rendered with a link target `url` keep it, as for one node
/// (see `lemma_inline_spans_keep_link`).
pub proof fn lemma_inline_seq_spans_keep_link(
    nodes: Seq<MdNode>,
    link: u32,
    inline_code: u32,
    style: u8,
    color: Option<u32>,
    size: Option<u32>,
    url: Seq<char>,
)
    ensures
        all_linked(inline_seq_out(nodes, link, inline_code, style, color, size, Some(url)).spans),
        seq_link_free(nodes) ==> all_link_to(
            inline_seq_out(nodes, link, inline_code, style, color, size, Some(url)).spans,
            url,
        ),
    decreases nodes,
{
    if nodes.len() > 0 {
        lemma_inline_seq_spans_keep_link(nodes.drop_last(), link, inline_code, style, color, size, url);
        lemma_inline_spans_keep_link(nodes.last(), link, inline_code, style, color, size, url);
        lemma_linked_then(
            inline_seq_out(nodes.drop_last(), link, inline_code, style, color, size, Some(url)),
            inline_out(nodes.last(), link, inline_code, style, color, size, Some(url)),
            url,
        );
    }
}

/// Every span drawn for a link whose text holds no further link (plain,
/// bold, italic text or inline code) leads to that link's URL, whatever
/// surrounds the link.
pub proof fn lemma_link_spans_carry_its_url(
    node: MdNode,
    link: u32,
    inline_code: u32,
    style: u8,
    color: Option<u32>,
    size: Option<u32>,
    data: Option<Seq<char>>,
)
    requires
        node matches MdNode::Link { children, .. } && seq_link_free(children@),
    ensures
        node matches MdNode::Link { url, .. } && all_link_to(
            inline_out(node, link, inline_code, style, color, size, data).spans,
            url@,
        ),
{
    if let MdNode::Link { url, children, .. } = node {
        lemma_inline_seq_spans_keep_link(children@, link, inline_code, style, Some(link), size, url@);
    }
}

/// An optional string by its characters.
pub open spec fn opt_view(o: Option<String>) -> Option<Seq<char>> {
    match o {
        Some(s) => Some(s@),
        None => None,
    }
}

/// A copy of a string.
fn copy(s: &String) -> (r: String)
    ensures
        r@ == s@,
{
    s.clone()
}

/// Adds a rendered error.
fn push_error(errors: &mut Vec<BevyMarkdownError>, info: String)
    ensures
        errors_view(final(errors)@) == errors_view(old(errors)@) + seq![ErrorView::Transform(info@)],
{
    errors.push(BevyMarkdownError::Transform { info });
    proof {
        assert(errors_view(errors@) =~= errors_view(old(errors)@) + seq![ErrorView::Transform(info@)]);
    }
}

/// Adds a span.
fn push_span(text_spans: &mut Vec<TextSpan>, span: TextSpan)
    ensures
        spans_view(final(text_spans)@) == spans_view(old(text_spans)@) + seq![span@],
{
    let ghost v = span@;
    text_spans.push(span);
    proof {
        assert(spans_view(text_spans@) =~= spans_view(old(text_spans)@) + seq![v]);
    }
}

proof fn lemma_transform_errors_add(a: Seq<Seq<char>>, b: Seq<Seq<char>>)
    ensures
        transform_errors(a + b) == transform_errors(a) + transform_errors(b),
{
    assert(transform_errors(a + b) =~= transform_errors(a) + transform_errors(b));
}

/// Whether the spans and errors `spans1`, `errors1` are those of
/// `spans0`, `errors0` followed by the output `out`.
pub open spec fn extends(
    spans0: Seq<SpanView>,
    errors0: Seq<ErrorView>,
    spans1: Seq<SpanView>,
    errors1: Seq<ErrorView>,
    out: Rendered,
) -> bool {
    spans1 == spans0 + out.spans && errors1 == errors0 + transform_errors(out.errors)
}

proof fn lemma_extends_then(
    s0: Seq<SpanView>,
    e0: Seq<ErrorView>,
    s1: Seq<SpanView>,
    e1: Seq<ErrorView>,
    s2: Seq<SpanView>,
    e2: Seq<ErrorView>,
    a: Rendered,
    b: Rendered,
)
    requires
        extends(s0, e0, s1, e1, a),
        extends(s1, e1, s2, e2, b),
    ensures
        extends(s0, e0, s2, e2, then(a, b)),
{
    lemma_transform_errors_add(a.errors, b.errors);
    assert(s2 =~= s0 + then(a, b).spans);
    assert(e2 =~= e0 + transform_errors(then(a, b).errors));
}

proof fn lemma_extends_empty(s0: Seq<SpanView>, e0: Seq<ErrorView>)
    ensures
        extends(s0, e0, s0, e0, no_output()),
{
    assert(s0 =~= s0 + no_output().spans);
    assert(transform_errors(no_output().errors) =~= Seq::<ErrorView>::empty());
    assert(e0 =~= e0 + transform_errors(no_output().errors));
}

proof fn lemma_extends_span(s0: Seq<SpanView>, e0: Seq<ErrorView>, s: SpanView)
    ensures
        extends(s0, e0, s0 + seq![s], e0, one_span(s)),
{
    assert(transform_errors(one_span(s).errors) =~= Seq::<ErrorView>::empty());
    assert(e0 =~= e0 + transform_errors(one_span(s).errors));
}

proof fn lemma_extends_error(s0: Seq<SpanView>, e0: Seq<ErrorView>, info: Seq<char>)
    ensures
        extends(s0, e0, s0, e0 + seq![ErrorView::Transform(info)], one_error(info)),
{
    assert(transform_errors(one_error(info).errors) =~= seq![ErrorView::Transform(info)]);
    assert(s0 =~= s0 + one_error(info).spans);
}

/// Renders an inline node in an inherited style, adding its spans and
/// errors after those already collected.
pub fn handle_inline_styling(
    node: &MdNode,
    bevy_markdown: &BevyMarkdown,
    text_spans: &mut Vec<TextSpan>,
    errors: &mut Vec<BevyMarkdownError>,
    applied_style: u8,
    force_color: Option<u32>,
    force_size: Option<u32>,
    force_data: &Option<String>,
) -> (r: Result<(), Vec<BevyMarkdownError>>)
    ensures
        r is Ok,
        extends(
            spans_view(old(text_spans)@),
            errors_view(old(errors)@),
            spans_view(final(text_spans)@),
            errors_view(final(errors)@),
            inline_out(
                *node,
                bevy_markdown.markdown_theme.link,
                bevy_markdown.markdown_theme.inline_code,
                applied_style,
                force_color,
                force_size,
                opt_view(*force_data),
            ),
        ),
    decreases node, 1nat,
{
    let ghost s0 = spans_view(text_spans@);
    let ghost e0 = errors_view(errors@);
    match node {
        MdNode::InlineCode { value, .. } => {
            let mut text_span = TextSpan {
                text: copy(value),
                color: Some(bevy_markdown.markdown_theme.inline_code),
                font_size: force_size,
                weigth: None,
                style: None,
                metadata: None,
            };
            if let Some(link) = force_data {
                text_span.metadata = Some(TextSpanMetadata { link: Some(copy(link)) });
            }
            let ghost v = text_span@;
            push_span(text_spans, text_span);
            proof {
                lemma_extends_span(s0, e0, v);
            }
        },
        MdNode::Emphasis { children, .. } => {
            handle_inline_children(
                children,
                bevy_markdown,
                text_spans,
                errors,
                applied_style | 0x02,
                force_color,
                force_size,
                force_data,
            );
        },
        MdNode::Strong { children, .. } => {
            handle_inline_children(
                children,
                bevy_markdown,
                text_spans,
                errors,
                applied_style | 0x01,
                force_color,
                force_size,
                force_data,
            );
        },
        MdNode::Text { value, .. } => {
            let mut text_span = TextSpan {
                text: copy(value),
                font_size: force_size,
                weigth: None,
                style: None,
                color: None,
                metadata: None,
            };
            if let Some(color) = force_color {
                text_span.color = Some(color);
            }
            if let Some(link) = force_data {
                text_span.metadata = Some(TextSpanMetadata { link: Some(copy(link)) });
            }
            match InlineStyleType::from_u8(applied_style) {
                InlineStyleType::Strong => {
                    text_span.weigth = Some(WEIGHT_BOLD);
                },
                InlineStyleType::Emphasis => {
                    text_span.style = Some(FontSlant::Italic);
                },
                InlineStyleType::StrongEmphasis => {
                    text_span.weigth = Some(WEIGHT_BOLD);
                    text_span.style = Some(FontSlant::Italic);
                },
                _ => {},
            }
            let ghost v = text_span@;
            push_span(text_spans, text_span);
            proof {
                lemma_extends_span(s0, e0, v);
            }
        },
        MdNode::Link { url, children, .. } => {
            let data = Some(copy(url));
            handle_inline_children(
                children,
                bevy_markdown,
                text_spans,
                errors,
                applied_style,
                Some(bevy_markdown.markdown_theme.link),
                force_size,
                &data,
            );
        },
        _ => {
            push_error(errors, String::from_str("nesting is not implemented"));
            proof {
                lemma_extends_error(s0, e0, nesting_message());
            }
        },
    }
    Ok(())
}

/// Renders a sequence of inline nodes in an inherited style.
fn handle_inline_children(
    children: &Vec<MdNode>,
    bevy_markdown: &BevyMarkdown,
    text_spans: &mut Vec<TextSpan>,
    errors: &mut Vec<BevyMarkdownError>,
    applied_style: u8,
    force_color: Option<u32>,
    force_size: Option<u32>,
    force_data: &Option<String>,
)
    ensures
        extends(
            spans_view(old(text_spans)@),
            errors_view(old(errors)@),
            spans_view(final(text_spans)@),
            errors_view(final(errors)@),
            inline_seq_out(
                children@,
                bevy_markdown.markdown_theme.link,
                bevy_markdown.markdown_theme.inline_code,
                applied_style,
                force_color,
                force_size,
                opt_view(*force_data),
            ),
        ),
    decreases children, 0nat,
{
    let ghost s0 = spans_view(text_spans@);
    let ghost e0 = errors_view(errors@);
    let ghost link = bevy_markdown.markdown_theme.link;
    let ghost code = bevy_markdown.markdown_theme.inline_code;
    let ghost data = opt_view(*force_data);
    let mut i: usize = 0;
    proof {
        assert(children@.take(0) =~= Seq::<MdNode>::empty());
        lemma_extends_empty(s0, e0);
    }
    while i < children.len()
        invariant
            i <= children.len(),
            link == bevy_markdown.markdown_theme.link,
            code == bevy_markdown.markdown_theme.inline_code,
            data == opt_view(*force_data),
            extends(
                s0,
                e0,
                spans_view(text_spans@),
                errors_view(errors@),
                inline_seq_out(children@.take(i as int), link, code, applied_style, force_color, force_size, data),
            ),
        decreases children.len() - i,
    {
        let ghost s1 = spans_view(text_spans@);
        let ghost e1 = errors_view(errors@);
        let _ = handle_inline_styling(
            &children[i],
            bevy_markdown,
            text_spans,
            errors,
            applied_style,
            force_color,
            force_size,
            force_data,
        );
        proof {
            let t = children@.take(i + 1);
            assert(t.drop_last() =~= children@.take(i as int));
            assert(t.last() == children@[i as int]);
            lemma_extends_then(
                s0,
                e0,
                s1,
                e1,
                spans_view(text_spans@),
                errors_view(errors@),
                inline_seq_out(children@.take(i as int), link, code, applied_style, force_color, force_size, data),
                inline_out(children@[i as int], link, code, applied_style, force_color, force_size, data),
            );
        }
        i = i + 1;
    }
    proof {
        assert(children@.take(children.len() as int) =~= children@);
    }
}

/// A line break span.
pub open spec fn newline_span() -> SpanView {
    plain_span("\n"@)
}

/// Rendering a child of a paragraph: breaks and plain text become unstyled
/// spans, inline markup is rendered with no inherited style.
pub open spec fn para_child_out(child: MdNode, link: u32, code: u32) -> Rendered {
    match child {
        MdNode::Break { .. } => one_span(newline_span()),
        MdNode::Text { value, .. } => one_span(plain_span(value@)),
        MdNode::Strong { .. } | MdNode::Emphasis { .. } | MdNode::InlineCode { .. }
        | MdNode::Delete { .. } | MdNode::Link { .. } => inline_out(child, link, code, 0, None, None, None),
        _ => one_error(node_debug(child) + " node is not implemented for paragraph"@),
    }
}

/// Rendering the children of a paragraph, one after another.
pub open spec fn para_seq_out(nodes: Seq<MdNode>, link: u32, code: u32) -> Rendered
    decreases nodes.len(),
{
    if nodes.len() == 0 {
        no_output()
    } else {
        then(para_seq_out(nodes.drop_last(), link, code), para_child_out(nodes.last(), link, code))
    }
}

/// Rendering a heading or a paragraph. A heading stands on a line of its
/// own, in bold, at the size of its depth.
pub open spec fn block_out(node: MdNode, link: u32, code: u32) -> Rendered {
    match node {
        MdNode::Heading { depth, children, .. } => then(
            then(
                one_span(newline_span()),
                inline_seq_out(children@, link, code, 1, None, Some(header_font_size(depth)), None),
            ),
            one_span(newline_span()),
        ),
        MdNode::Paragraph { children, .. } => para_seq_out(children@, link, code),
        _ => one_error(nesting_message()),
    }
}

/// The number of list items among `nodes`.
pub open spec fn count_items(nodes: Seq<MdNode>) -> nat
    decreases nodes.len(),
{
    if nodes.len() == 0 {
        0
    } else {
        count_items(nodes.drop_last()) + if nodes.last() is ListItem {
            1nat
        } else {
            0nat
        }
    }
}

/// The marker in front of a list item: its number in an ordered list, else
/// the bullet of its level.
pub open spec fn item_marker(ordered: bool, index: nat, level: u8) -> Seq<char> {
    if ordered {
        " "@ + decimal(index) + ". "@
    } else {
        bullet_for(level)
    }
}

/// Four spaces of indentation per level.
pub open spec fn indent_out(level: nat) -> Rendered
    decreases level,
{
    if level == 0 {
        no_output()
    } else {
        then(indent_out((level - 1) as nat), one_span(plain_span("    "@)))
    }
}

/// The number of the first item of a list (0 where the list has none).
pub open spec fn first_index(start: Option<u32>) -> nat {
    match start {
        Some(s) => s as nat,
        None => 0,
    }
}

/// Rendering a list at an indentation level: a line break, then its
/// children.
pub open spec fn list_out(list_ordered: bool, start: Option<u32>, children: Seq<MdNode>, link: u32, code: u32, level: u8) -> Rendered
    decreases children, 2nat,
{
    then(one_span(newline_span()), list_children_out(list_ordered, start, children, link, code, level))
}

/// Rendering the children of a list, numbering its items in order.
pub open spec fn list_children_out(list_ordered: bool, start: Option<u32>, children: Seq<MdNode>, link: u32, code: u32, level: u8) -> Rendered
    decreases children, 1nat,
{
    if children.len() == 0 {
        no_output()
    } else {
        then(
            list_children_out(list_ordered, start, children.drop_last(), link, code, level),
            list_child_out(
                children.last(),
                list_ordered,
                first_index(start) + count_items(children.drop_last()),
                link,
                code,
                level,
            ),
        )
    }
}

/// Rendering a child of a list: an item is indented, marked, followed by
/// its content and a line break; anything else is an error.
pub open spec fn list_child_out(child: MdNode, list_ordered: bool, index: nat, link: u32, code: u32, level: u8) -> Rendered
    decreases child, 0nat,
{
    match child {
        MdNode::ListItem { children, .. } => then(
            then(
                then(indent_out(level as nat), one_span(plain_span(item_marker(list_ordered, index, level)))),
                item_seq_out(children@, link, code, level),
            ),
            one_span(newline_span()),
        ),
        _ => one_error("invalid list children"@),
    }
}

/// Rendering the content of a list item, one child after another.
pub open spec fn item_seq_out(nodes: Seq<MdNode>, link: u32, code: u32, level: u8) -> Rendered
    decreases nodes, 1nat,
{
    if nodes.len() == 0 {
        no_output()
    } else {
        then(item_seq_out(nodes.drop_last(), link, code, level), item_child_out(nodes.last(), link, code, level))
    }
}

/// Rendering a child of a list item: a paragraph's inline content, or a
/// nested list one level deeper.
pub open spec fn item_child_out(child: MdNode, link: u32, code: u32, level: u8) -> Rendered
    decreases child, 0nat,
{
    match child {
        MdNode::Paragraph { children, .. } => inline_seq_out(children@, link, code, 0, None, None, None),
        MdNode::List(l) => list_out(l.ordered, l.start, l.children@, link, code, (level + 1) as u8),
        _ => one_error(node_debug(child) + " node is not implemented for list item"@),
    }
}

/// Whether rendering a list at `level` never overflows: an ordered list has
/// a first number and its item numbers fit in a `u32`, and lists nest no
/// deeper than level 255.
pub open spec fn list_ok(list_ordered: bool, start: Option<u32>, children: Seq<MdNode>, level: u8) -> bool
    decreases children, 2nat,
{
    &&& list_ordered ==> start is Some && first_index(start) + count_items(children) <= u32::MAX
    &&& list_children_ok(children, level)
}

/// Whether rendering the children of a list never overflows.
pub open spec fn list_children_ok(children: Seq<MdNode>, level: u8) -> bool
    decreases children, 1nat,
{
    children.len() == 0 || (list_children_ok(children.drop_last(), level) && list_child_ok(
        children.last(),
        level,
    ))
}

/// Whether rendering a child of a list never overflows.
pub open spec fn list_child_ok(child: MdNode, level: u8) -> bool
    decreases child, 0nat,
{
    match child {
        MdNode::ListItem { children, .. } => item_seq_ok(children@, level),
        _ => true,
    }
}

/// Whether rendering the content of a list item never overflows.
pub open spec fn item_seq_ok(nodes: Seq<MdNode>, level: u8) -> bool
    decreases nodes, 1nat,
{
    nodes.len() == 0 || (item_seq_ok(nodes.drop_last(), level) && item_child_ok(nodes.last(), level))
}

/// Whether rendering a child of a list item never overflows.
pub open spec fn item_child_ok(child: MdNode, level: u8) -> bool
    decreases child, 0nat,
{
    match child {
        MdNode::List(l) => level < 255 && list_ok(l.ordered, l.start, l.children@, (level + 1) as u8),
        _ => true,
    }
}

/// Renders a heading or a paragraph, adding its spans and errors after
/// those already collected.
pub fn handle_block_styling(
    node: &MdNode,
    bevy_markdown: &BevyMarkdown,
    text_spans: &mut Vec<TextSpan>,
    errors: &mut Vec<BevyMarkdownError>,
) -> (r: Result<(), Vec<BevyMarkdownError>>)
    ensures
        r is Ok,
        extends(
            spans_view(old(text_spans)@),
            errors_view(old(errors)@),
            spans_view(final(text_spans)@),
            errors_view(final(errors)@),
            block_out(*node, bevy_markdown.markdown_theme.link, bevy_markdown.markdown_theme.inline_code),
        ),
{
    let ghost s0 = spans_view(text_spans@);
    let ghost e0 = errors_view(errors@);
    let ghost link = bevy_markdown.markdown_theme.link;
    let ghost code = bevy_markdown.markdown_theme.inline_code;
    match node {
        MdNode::Heading { depth, children, .. } => {
            push_span(text_spans, text_span("\n"));
            proof {
                lemma_extends_span(s0, e0, newline_span());
            }
            let ghost s1 = spans_view(text_spans@);
            let ghost e1 = errors_view(errors@);
            let size = get_header_font_size(*depth);
            handle_inline_children(
                children,
                bevy_markdown,
                text_spans,
                errors,
                InlineStyleType::Strong.code(),
                None,
                Some(size),
                &None,
            );
            let ghost s2 = spans_view(text_spans@);
            let ghost e2 = errors_view(errors@);
            push_span(text_spans, text_span("\n"));
            proof {
                let mid = inline_seq_out(children@, link, code, 1, None, Some(header_font_size(*depth)), None);
                assert(opt_view(None) == None::<Seq<char>>);
                lemma_extends_then(s0, e0, s1, e1, s2, e2, one_span(newline_span()), mid);
                lemma_extends_span(s2, e2, newline_span());
                lemma_extends_then(
                    s0,
                    e0,
                    s2,
                    e2,
                    spans_view(text_spans@),
                    errors_view(errors@),
                    then(one_span(newline_span()), mid),
                    one_span(newline_span()),
                );
            }
        },
        MdNode::Paragraph { children, .. } => {
            let mut i: usize = 0;
            proof {
                assert(children@.take(0) =~= Seq::<MdNode>::empty());
                lemma_extends_empty(s0, e0);
            }
            while i < children.len()
                invariant
                    i <= children.len(),
                    link == bevy_markdown.markdown_theme.link,
                    code == bevy_markdown.markdown_theme.inline_code,
                    extends(
                        s0,
                        e0,
                        spans_view(text_spans@),
                        errors_view(errors@),
                        para_seq_out(children@.take(i as int), link, code),
                    ),
                decreases children.len() - i,
            {
                let ghost s1 = spans_view(text_spans@);
                let ghost e1 = errors_view(errors@);
                let child = &children[i];
                match child {
                    MdNode::Break { .. } => {
                        push_span(text_spans, text_span("\n"));
                        proof {
                            lemma_extends_span(s1, e1, newline_span());
                        }
                    },
                    MdNode::Text { value, .. } => {
                        push_span(text_spans, text_span(value.as_str()));
                        proof {
                            lemma_extends_span(s1, e1, plain_span(value@));
                        }
                    },
                    MdNode::Strong { .. } | MdNode::Emphasis { .. } | MdNode::InlineCode { .. }
                    | MdNode::Delete { .. } | MdNode::Link { .. } => {
                        let none: Option<String> = None;
                        let _ = handle_inline_styling(
                            child,
                            bevy_markdown,
                            text_spans,
                            errors,
                            InlineStyleType::Plain.code(),
                            None,
                            None,
                            &none,
                        );
                    },
                    _ => {
                        let mut info = debug_text(child);
                        push_str(&mut info, " node is not implemented for paragraph");
                        let ghost iv = info@;
                        push_error(errors, info);
                        proof {
                            lemma_extends_error(s1, e1, iv);
                        }
                    },
                }
                proof {
                    let t = children@.take(i + 1);
                    assert(t.drop_last() =~= children@.take(i as int));
                    assert(t.last() == children@[i as int]);
                    lemma_extends_then(
                        s0,
                        e0,
                        s1,
                        e1,
                        spans_view(text_spans@),
                        errors_view(errors@),
                        para_seq_out(children@.take(i as int), link, code),
                        para_child_out(children@[i as int], link, code),
                    );
                }
                i = i + 1;
            }
            proof {
                assert(children@.take(children.len() as int) =~= children@);
            }
        },
        _ => {
            push_error(errors, String::from_str("nesting is not implemented"));
            proof {
                lemma_extends_error(s0, e0, nesting_message());
            }
        },
    }
    Ok(())
}

proof fn lemma_count_items_prefix(s: Seq<MdNode>, i: int)
    requires
        0 <= i <= s.len(),
    ensures
        count_items(s.take(i)) <= count_items(s),
    decreases s.len(),
{
    if i < s.len() {
        assert(s.drop_last().take(i) =~= s.take(i));
        lemma_count_items_prefix(s.drop_last(), i);
    } else {
        assert(s.take(i) =~= s);
    }
}

proof fn lemma_list_children_ok_at(s: Seq<MdNode>, level: u8, i: int)
    requires
        list_children_ok(s, level),
        0 <= i < s.len(),
    ensures
        list_child_ok(s[i], level),
    decreases s.len(),
{
    if i < s.len() - 1 {
        assert(s.drop_last()[i] == s[i]);
        lemma_list_children_ok_at(s.drop_last(), level, i);
    }
}

proof fn lemma_item_seq_ok_at(s: Seq<MdNode>, level: u8, i: int)
    requires
        item_seq_ok(s, level),
        0 <= i < s.len(),
    ensures
        item_child_ok(s[i], level),
    decreases s.len(),
{
    if i < s.len() - 1 {
        assert(s.drop_last()[i] == s[i]);
        lemma_item_seq_ok_at(s.drop_last(), level, i);
    }
}

/// Renders a list at an indentation level, adding its spans and errors
/// after those already collected. Items of an ordered list are numbered from
/// its start; items of an unordered list get the bullet of their level;
/// nested lists are rendered one level deeper.
pub fn handle_list_recursive(
    list: &MdList,
    bevy_markdown: &BevyMarkdown,
    text_spans: &mut Vec<TextSpan>,
    errors: &mut Vec<BevyMarkdownError>,
    indentation_level: u8,
) -> (r: Result<(), Vec<BevyMarkdownError>>)
    requires
        list_ok(list.ordered, list.start, list.children@, indentation_level),
    ensures
        r is Ok,
        extends(
            spans_view(old(text_spans)@),
            errors_view(old(errors)@),
            spans_view(final(text_spans)@),
            errors_view(final(errors)@),
            list_out(
                list.ordered,
                list.start,
                list.children@,
                bevy_markdown.markdown_theme.link,
                bevy_markdown.markdown_theme.inline_code,
                indentation_level,
            ),
        ),
    decreases list,
{
    let ghost s0 = spans_view(text_spans@);
    let ghost e0 = errors_view(errors@);
    let ghost link = bevy_markdown.markdown_theme.link;
    let ghost code = bevy_markdown.markdown_theme.inline_code;
    let ghost children = list.children@;
    let ghost ordered = list.ordered;
    let ghost start = list.start;
    push_span(text_spans, text_span("\n"));
    proof {
        lemma_extends_span(s0, e0, newline_span());
    }
    let ghost s1 = spans_view(text_spans@);
    let ghost e1 = errors_view(errors@);
    let mut list_index: Option<u32> = list.start;
    let mut i: usize = 0;
    proof {
        assert(children.take(0) =~= Seq::<MdNode>::empty());
        lemma_extends_empty(s1, e1);
    }
    while i < list.children.len()
        invariant
            i <= list.children.len(),
            children == list.children@,
            ordered == list.ordered,
            start == list.start,
            link == bevy_markdown.markdown_theme.link,
            code == bevy_markdown.markdown_theme.inline_code,
            list_ok(ordered, start, children, indentation_level),
            ordered ==> list_index is Some && list_index->0 == first_index(start) + count_items(children.take(i as int)),
            extends(
                s1,
                e1,
                spans_view(text_spans@),
                errors_view(errors@),
                list_children_out(ordered, start, children.take(i as int), link, code, indentation_level),
            ),
        decreases list.children.len() - i,
    {
        let ghost s2 = spans_view(text_spans@);
        let ghost e2 = errors_view(errors@);
        let ghost index_here = first_index(start) + count_items(children.take(i as int));
        proof {
            let t = children.take(i + 1);
            assert(t.drop_last() =~= children.take(i as int));
            assert(t.last() == children[i as int]);
            lemma_count_items_prefix(children, i + 1);
            lemma_list_children_ok_at(children, indentation_level, i as int);
        }
        match &list.children[i] {
            MdNode::ListItem { children: item_children, debug: item_debug } => {
                let mut k: u8 = 0;
                proof {
                    lemma_extends_empty(s2, e2);
                }
                while k < indentation_level
                    invariant
                        k <= indentation_level,
                        extends(s2, e2, spans_view(text_spans@), errors_view(errors@), indent_out(k as nat)),
                    decreases indentation_level - k,
                {
                    let ghost s3 = spans_view(text_spans@);
                    let ghost e3 = errors_view(errors@);
                    push_span(text_spans, text_span("    "));
                    proof {
                        lemma_extends_span(s3, e3, plain_span("    "@));
                        lemma_extends_then(
                            s2,
                            e2,
                            s3,
                            e3,
                            spans_view(text_spans@),
                            errors_view(errors@),
                            indent_out(k as nat),
                            one_span(plain_span("    "@)),
                        );
                    }
                    k = k + 1;
                }
                let ghost s3 = spans_view(text_spans@);
                let ghost e3 = errors_view(errors@);
                let indent_char: String = if list.ordered {
                    let index = list_index.unwrap();
                    list_index = Some(index + 1);
                    let mut t = String::from_str(" ");
                    push_decimal(&mut t, index as u128);
                    push_str(&mut t, ". ");
                    t
                } else {
                    String::from_str(get_bullet_for_indentation_level(indentation_level))
                };
                let ghost marker = indent_char@;
                assert(marker == item_marker(ordered, index_here, indentation_level));
                push_span(
                    text_spans,
                    TextSpan {
                        text: indent_char,
                        font_size: None,
                        weigth: None,
                        style: None,
                        color: None,
                        metadata: None,
                    },
                );
                proof {
                    lemma_extends_span(s3, e3, plain_span(marker));
                    lemma_extends_then(
                        s2,
                        e2,
                        s3,
                        e3,
                        spans_view(text_spans@),
                        errors_view(errors@),
                        indent_out(indentation_level as nat),
                        one_span(plain_span(marker)),
                    );
                }
                let ghost s4 = spans_view(text_spans@);
                let ghost e4 = errors_view(errors@);
                let ghost items = item_children@;
                let mut j: usize = 0;
                proof {
                    assert(items.take(0) =~= Seq::<MdNode>::empty());
                    lemma_extends_empty(s4, e4);
                }
                while j < item_children.len()
                    invariant
                        j <= item_children.len(),
                        items == item_children@,
                        i < list.children.len(),
                        list.children@[i as int] == (MdNode::ListItem { children: *item_children, debug: *item_debug }),
                        item_seq_ok(items, indentation_level),
                        link == bevy_markdown.markdown_theme.link,
                        code == bevy_markdown.markdown_theme.inline_code,
                        extends(
                            s4,
                            e4,
                            spans_view(text_spans@),
                            errors_view(errors@),
                            item_seq_out(items.take(j as int), link, code, indentation_level),
                        ),
                    decreases item_children.len() - j,
                {
                    let ghost s5 = spans_view(text_spans@);
                    let ghost e5 = errors_view(errors@);
                    proof {
                        lemma_item_seq_ok_at(items, indentation_level, j as int);
                    }
                    match &item_children[j] {
                        MdNode::Paragraph { children: para, .. } => {
                            let none: Option<String> = None;
                            handle_inline_children(
                                para,
                                bevy_markdown,
                                text_spans,
                                errors,
                                InlineStyleType::Plain.code(),
                                None,
                                None,
                                &none,
                            );
                        },
                        MdNode::List(inner_list) => {
                            proof {
                                let item = list.children@[i as int];
                                let node = item_children@[j as int];
                                assert(decreases_to!(list => list.children));
                                assert(decreases_to!(list.children => list.children@));
                                assert(decreases_to!(list.children@ => item));
                                assert(item->ListItem_children == *item_children);
                                assert(decreases_to!(item => item->ListItem_children));
                                assert(decreases_to!(*item_children => item_children@));
                                assert(decreases_to!(item_children@ => node));
                                assert(node->List_0 == *inner_list);
                                assert(decreases_to!(node => node->List_0));
                                assert(decreases_to!(list => *inner_list));
                            }
                            let _ = handle_list_recursive(
                                inner_list,
                                bevy_markdown,
                                text_spans,
                                errors,
                                indentation_level + 1,
                            );
                        },
                        other => {
                            let mut info = debug_text(other);
                            push_str(&mut info, " node is not implemented for list item");
                            let ghost iv = info@;
                            push_error(errors, info);
                            proof {
                                lemma_extends_error(s5, e5, iv);
                            }
                        },
                    }
                    proof {
                        let t = items.take(j + 1);
                        assert(t.drop_last() =~= items.take(j as int));
                        assert(t.last() == items[j as int]);
                        lemma_extends_then(
                            s4,
                            e4,
                            s5,
                            e5,
                            spans_view(text_spans@),
                            errors_view(errors@),
                            item_seq_out(items.take(j as int), link, code, indentation_level),
                            item_child_out(items[j as int], link, code, indentation_level),
                        );
                    }
                    j = j + 1;
                }
                proof {
                    assert(items.take(items.len() as int) =~= items);
                }
                let ghost s6 = spans_view(text_spans@);
                let ghost e6 = errors_view(errors@);
                push_span(text_spans, text_span("\n"));
                proof {
                    let head = then(indent_out(indentation_level as nat), one_span(plain_span(marker)));
                    lemma_extends_then(s2, e2, s4, e4, s6, e6, head, item_seq_out(items, link, code, indentation_level));
                    lemma_extends_span(s6, e6, newline_span());
                    lemma_extends_then(
                        s2,
                        e2,
                        s6,
                        e6,
                        spans_view(text_spans@),
                        errors_view(errors@),
                        then(head, item_seq_out(items, link, code, indentation_level)),
                        one_span(newline_span()),
                    );
                }
            },
            _ => {
                push_error(errors, String::from_str("invalid list children"));
                proof {
                    lemma_extends_error(s2, e2, "invalid list children"@);
                }
            },
        }
        proof {
            lemma_extends_then(
                s1,
                e1,
                s2,
                e2,
                spans_view(text_spans@),
                errors_view(errors@),
                list_children_out(ordered, start, children.take(i as int), link, code, indentation_level),
                list_child_out(children[i as int], ordered, index_here, link, code, indentation_level),
            );
        }
        i = i + 1;
    }
    proof {
        assert(children.take(children.len() as int) =~= children);
        lemma_extends_then(
            s0,
            e0,
            s1,
            e1,
            spans_view(text_spans@),
            errors_view(errors@),
            one_span(newline_span()),
            list_children_out(ordered, start, children, link, code, indentation_level),
        );
    }
    Ok(())
}

} // verus!
