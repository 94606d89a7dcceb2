//! Rendering a whole markdown text: parsing it, rendering its blocks into
//! spans and cutting the spans into lines of styled pieces.

use super::spans::{
    count_items, first_index, item_child_ok, item_seq_ok, list_child_ok, list_children_ok, block_out, extends, handle_block_styling, handle_list_recursive, list_ok, list_out, newline_span,
    no_output, one_error, one_span, then, transform_errors, Rendered,
};
use super::style::{
    errors_view, plain_span, spans_view, spec_rgba, text_span, rgb, BevyMarkdown, BevyMarkdownError,
    BevyMarkdownTheme, ErrorView, FontSlant, SpanView, TextSpan, TextSpanMetadata, WEIGHT_BOLD,
    WEIGHT_SEMIBOLD,
};
use super::tree::{
    debug_text, highlight_code, highlighted_code, markdown_syntax_tree, node_debug, parse_markdown,
    HighlightPiece, HighlightView, MdList, MdNode,
};
use crate::text::{byte_len, concat_all, join_lines, line_layout, push_str};
use vstd::prelude::*;

verus! {

/// The span of one highlighted piece of code: bold, italic, both (for
/// underlined pieces) or semi-bold, in the piece's opaque color.
pub open spec fn piece_span(p: HighlightView) -> SpanView {
    let weigth = if p.font_style == 1 || p.font_style == 2 {
        Some(WEIGHT_BOLD)
    } else if p.font_style == 4 {
        None
    } else {
        Some(WEIGHT_SEMIBOLD)
    };
    let slant = if p.font_style == 4 || p.font_style == 2 {
        Some(FontSlant::Italic)
    } else {
        None
    };
    SpanView {
        text: p.text,
        font_size: None,
        weigth,
        style: slant,
        color: Some(spec_rgba(p.red, p.green, p.blue, 0xFF)),
        metadata: None,
    }
}

/// The language a code block is highlighted in: its own, else the theme's
/// default.
pub open spec fn code_lang(lang: Option<String>, theme: BevyMarkdownTheme) -> Seq<char> {
    match lang {
        Some(l) => l@,
        None => theme.code_default_lang@,
    }
}

/// The highlighted pieces of a code block.
pub open spec fn code_pieces(lang: Option<String>, value: String, theme: BevyMarkdownTheme) -> Seq<HighlightView> {
    highlighted_code(value@, code_lang(lang, theme), theme.code_theme@)->0
}

/// Rendering a code block: a blank line, its highlighted pieces, a line
/// break.
pub open spec fn code_out(lang: Option<String>, value: String, theme: BevyMarkdownTheme) -> Rendered {
    then(
        then(
            one_span(plain_span("\n\n"@)),
            Rendered {
                spans: code_pieces(lang, value, theme).map_values(|p: HighlightView| piece_span(p)),
                errors: Seq::empty(),
            },
        ),
        one_span(newline_span()),
    )
}

/// Rendering a top-level block of a document.
pub open spec fn root_child_out(child: MdNode, theme: BevyMarkdownTheme) -> Rendered {
    match child {
        MdNode::Code { lang, value, .. } => code_out(lang, value, theme),
        MdNode::Heading { .. } | MdNode::Paragraph { .. } => block_out(child, theme.link, theme.inline_code),
        MdNode::List(l) => list_out(l.ordered, l.start, l.children@, theme.link, theme.inline_code, 0),
        _ => one_error(node_debug(child) + " node is not implemented for root"@),
    }
}

/// Rendering the top-level blocks of a document, one after another.
pub open spec fn root_seq_out(nodes: Seq<MdNode>, theme: BevyMarkdownTheme) -> Rendered
    decreases nodes.len(),
{
    if nodes.len() == 0 {
        no_output()
    } else {
        then(root_seq_out(nodes.drop_last(), theme), root_child_out(nodes.last(), theme))
    }
}

/// Rendering a whole syntax tree, which must be a document root.
pub open spec fn tree_out(tree: MdNode, theme: BevyMarkdownTheme) -> Rendered {
    match tree {
        MdNode::Root { children, .. } => root_seq_out(children@, theme),
        _ => one_error("unexpected node: "@ + node_debug(tree)),
    }
}

/// Whether rendering a top-level block never fails outright: a code block
/// can be highlighted, a list never overflows.
pub open spec fn root_child_ok(child: MdNode, theme: BevyMarkdownTheme) -> bool {
    match child {
        MdNode::Code { lang, value, .. } => highlighted_code(value@, code_lang(lang, theme), theme.code_theme@) is Some,
        MdNode::List(l) => list_ok(l.ordered, l.start, l.children@, 0),
        _ => true,
    }
}

/// Whether rendering the top-level blocks never fails outright.
pub open spec fn root_seq_ok(nodes: Seq<MdNode>, theme: BevyMarkdownTheme) -> bool
    decreases nodes.len(),
{
    nodes.len() == 0 || (root_seq_ok(nodes.drop_last(), theme) && root_child_ok(nodes.last(), theme))
}

/// Whether rendering a syntax tree never fails outright.
pub open spec fn tree_ok(tree: MdNode, theme: BevyMarkdownTheme) -> bool {
    match tree {
        MdNode::Root { children, .. } => root_seq_ok(children@, theme),
        _ => true,
    }
}

/// Whether a markdown text can be rendered with a theme without a failure
/// that would stop the renderer: every code block's language and the theme
/// are known to the highlighter, and lists are numbered and nested within
/// bounds.
pub open spec fn markdown_renderable(text: Seq<char>, theme: BevyMarkdownTheme) -> bool {
    markdown_syntax_tree(text) matches Ok(tree) ==> tree_ok(tree, theme)
}

/// How a piece of a line is styled: the overrides of color, slant and
/// weight that its span makes to the base text style, and the index of its
/// span (the key of its metadata).
#[derive(Clone, Copy, Debug, PartialEq, Eq, Structural)]
pub struct LineAttrs {
    pub color: Option<u32>,
    pub style: Option<FontSlant>,
    pub weight: Option<u16>,
    pub metadata: usize,
}

/// The style of the pieces cut from the span with index `i`.
pub open spec fn span_attrs(s: SpanView, i: int) -> LineAttrs {
    LineAttrs { color: s.color, style: s.style, weight: s.weigth, metadata: i as usize }
}

/// A line of styled pieces, each piece by its characters.
pub type LineView = Seq<(Seq<char>, LineAttrs)>;

/// Adds a piece at the end of the last line.
pub open spec fn add_piece(lines: Seq<LineView>, piece: (Seq<char>, LineAttrs)) -> Seq<LineView> {
    lines.update(lines.len() - 1, lines.last().push(piece))
}

/// Reading the characters of a span one by one: a line break closes the
/// pending piece (if it has any characters) and starts a new line; any
/// other character joins the pending piece.
pub open spec fn scan(lines: Seq<LineView>, text: Seq<char>, a: LineAttrs) -> (Seq<LineView>, Seq<char>)
    decreases text.len(),
{
    if text.len() == 0 {
        (lines, Seq::empty())
    } else {
        let (l, t) = scan(lines, text.drop_last(), a);
        if text.last() == '\n' {
            let l2 = if t.len() > 0 {
                add_piece(l, (t, a))
            } else {
                l
            };
            (l2.push(Seq::empty()), Seq::empty())
        } else {
            (l, t.push(text.last()))
        }
    }
}

/// The lines after cutting one more span into them.
pub open spec fn span_lines(lines: Seq<LineView>, text: Seq<char>, a: LineAttrs) -> Seq<LineView> {
    let (l, t) = scan(lines, text, a);
    if t.len() > 0 {
        add_piece(l, (t, a))
    } else {
        l
    }
}

/// The lines that a sequence of spans is cut into: one line to begin with,
/// and a new line for each line break in the spans' text.
pub open spec fn spans_to_lines(spans: Seq<SpanView>) -> Seq<LineView>
    decreases spans.len(),
{
    if spans.len() == 0 {
        seq![Seq::empty()]
    } else {
        span_lines(
            spans_to_lines(spans.drop_last()),
            spans.last().text,
            span_attrs(spans.last(), spans.len() - 1),
        )
    }
}

/// The link metadata of a span (no link where it has no metadata).
pub open spec fn span_link(s: SpanView) -> Option<Seq<char>> {
    match s.metadata {
        Some(m) => m,
        None => None,
    }
}

/// Rendered markdown: lines of styled pieces, and the metadata of each span
/// (indexed by the `metadata` of the pieces).
#[derive(Debug)]
pub struct BevyMarkdownLines {
    pub lines: Vec<Vec<(String, LineAttrs)>>,
    pub span_metadata: Vec<TextSpanMetadata>,
}

/// The lines of a rendering, each piece by its characters.
pub open spec fn lines_view(lines: Seq<Vec<(String, LineAttrs)>>) -> Seq<LineView> {
    lines.map_values(|l: Vec<(String, LineAttrs)>| l@.map_values(|p: (String, LineAttrs)| (p.0@, p.1)))
}

proof fn lemma_extends_then_l(
    s0: Seq<SpanView>,
    e0: Seq<ErrorView>,
    s1: Seq<SpanView>,
    e1: Seq<ErrorView>,
    s2: Seq<SpanView>,
    e2: Seq<ErrorView>,
    a: Rendered,
    b: Rendered,
)
    requires
        extends(s0, e0, s1, e1, a),
        extends(s1, e1, s2, e2, b),
    ensures
        extends(s0, e0, s2, e2, then(a, b)),
{
    assert(transform_errors(a.errors + b.errors) =~= transform_errors(a.errors) + transform_errors(b.errors));
    assert(s2 =~= s0 + then(a, b).spans);
    assert(e2 =~= e0 + transform_errors(then(a, b).errors));
}

proof fn lemma_extends_empty_l(s0: Seq<SpanView>, e0: Seq<ErrorView>)
    ensures
        extends(s0, e0, s0, e0, no_output()),
{
    assert(s0 =~= s0 + no_output().spans);
    assert(transform_errors(no_output().errors) =~= Seq::<ErrorView>::empty());
    assert(e0 =~= e0 + transform_errors(no_output().errors));
}

/// Adds a span.
fn add_span(text_spans: &mut Vec<TextSpan>, span: TextSpan)
    ensures
        spans_view(final(text_spans)@) == spans_view(old(text_spans)@) + seq![span@],
{
    let ghost v = span@;
    text_spans.push(span);
    proof {
        assert(spans_view(text_spans@) =~= spans_view(old(text_spans)@) + seq![v]);
    }
}

/// Renders a code block: a blank line, the highlighted pieces of its text,
/// and a line break.
fn render_code(
    lang: &Option<String>,
    value: &String,
    theme: &BevyMarkdownTheme,
    text_spans: &mut Vec<TextSpan>,
)
    requires
        highlighted_code(value@, code_lang(*lang, *theme), theme.code_theme@) is Some,
    ensures
        spans_view(final(text_spans)@) == spans_view(old(text_spans)@) + code_out(*lang, *value, *theme).spans,
        code_out(*lang, *value, *theme).errors == Seq::<Seq<char>>::empty(),
{
    let ghost s0 = spans_view(text_spans@);
    let lang_text: &str = match lang {
        Some(l) => l.as_str(),
        None => theme.code_default_lang.as_str(),
    };
    let pieces = highlight_code(value.as_str(), lang_text, theme.code_theme.as_str());
    let pieces: Vec<HighlightPiece> = match pieces {
        Some(p) => p,
        None => Vec::new(),
    };
    let ghost pv = pieces@.map_values(|p: HighlightPiece| p@);
    assert(pv == code_pieces(*lang, *value, *theme));
    add_span(text_spans, text_span("\n\n"));
    let ghost s1 = spans_view(text_spans@);
    let mut i: usize = 0;
    while i < pieces.len()
        invariant
            i <= pieces.len(),
            pv == pieces@.map_values(|p: HighlightPiece| p@),
            spans_view(text_spans@) == s1 + pv.take(i as int).map_values(|p: HighlightView| piece_span(p)),
        decreases pieces.len() - i,
    {
        let p = &pieces[i];
        let (weigth, style) = if p.font_style == 1 {
            (Some(WEIGHT_BOLD), None)
        } else if p.font_style == 4 {
            (None, Some(FontSlant::Italic))
        } else if p.font_style == 2 {
            (Some(WEIGHT_BOLD), Some(FontSlant::Italic))
        } else {
            (Some(WEIGHT_SEMIBOLD), None)
        };
        let span = TextSpan {
            text: p.text.clone(),
            font_size: None,
            weigth,
            style,
            color: Some(rgb(p.red, p.green, p.blue)),
            metadata: None,
        };
        assert(span@ == piece_span(pv[i as int]));
        add_span(text_spans, span);
        proof {
            assert(pv.take(i + 1).map_values(|p: HighlightView| piece_span(p)) =~= pv.take(
                i as int,
            ).map_values(|p: HighlightView| piece_span(p)).push(piece_span(pv[i as int])));
        }
        i = i + 1;
    }
    proof {
        assert(pv.take(pieces.len() as int) =~= pv);
    }
    add_span(text_spans, text_span("\n"));
    proof {
        let out = code_out(*lang, *value, *theme);
        assert(out.spans =~= seq![plain_span("\n\n"@)] + pv.map_values(|p: HighlightView| piece_span(p)) + seq![newline_span()]);
        assert(spans_view(text_spans@) =~= s0 + out.spans);
        assert(out.errors =~= Seq::<Seq<char>>::empty());
    }
}

proof fn lemma_root_seq_ok_at(s: Seq<MdNode>, theme: BevyMarkdownTheme, i: int)
    requires
        root_seq_ok(s, theme),
        0 <= i < s.len(),
    ensures
        root_child_ok(s[i], theme),
    decreases s.len(),
{
    if i < s.len() - 1 {
        assert(s.drop_last()[i] == s[i]);
        lemma_root_seq_ok_at(s.drop_last(), theme, i);
    }
}

/// Renders the top-level blocks of a document, adding their spans and
/// errors after those already collected.
fn render_root_children(
    children: &Vec<MdNode>,
    bevy_markdown: &BevyMarkdown,
    text_spans: &mut Vec<TextSpan>,
    errors: &mut Vec<BevyMarkdownError>,
)
    requires
        root_seq_ok(children@, bevy_markdown.markdown_theme),
    ensures
        extends(
            spans_view(old(text_spans)@),
            errors_view(old(errors)@),
            spans_view(final(text_spans)@),
            errors_view(final(errors)@),
            root_seq_out(children@, bevy_markdown.markdown_theme),
        ),
{
    let ghost s0 = spans_view(text_spans@);
    let ghost e0 = errors_view(errors@);
    let ghost theme = bevy_markdown.markdown_theme;
    let mut i: usize = 0;
    proof {
        assert(children@.take(0) =~= Seq::<MdNode>::empty());
        lemma_extends_empty_l(s0, e0);
    }
    while i < children.len()
        invariant
            i <= children.len(),
            theme == bevy_markdown.markdown_theme,
            root_seq_ok(children@, theme),
            extends(s0, e0, spans_view(text_spans@), errors_view(errors@), root_seq_out(children@.take(i as int), theme)),
        decreases children.len() - i,
    {
        let ghost s1 = spans_view(text_spans@);
        let ghost e1 = errors_view(errors@);
        proof {
            lemma_root_seq_ok_at(children@, theme, i as int);
        }
        let child = &children[i];
        match child {
            MdNode::Code { lang, value, .. } => {
                render_code(lang, value, &bevy_markdown.markdown_theme, text_spans);
                proof {
                    let out = code_out(*lang, *value, theme);
                    assert(transform_errors(out.errors) =~= Seq::<ErrorView>::empty());
                    assert(errors_view(errors@) =~= e1 + transform_errors(out.errors));
                }
            },
            MdNode::Heading { .. } | MdNode::Paragraph { .. } => {
                let _ = handle_block_styling(child, bevy_markdown, text_spans, errors);
            },
            MdNode::List(list) => {
                let _ = handle_list_recursive(list, bevy_markdown, text_spans, errors, 0);
            },
            _ => {
                let mut info = debug_text(child);
                push_str(&mut info, " node is not implemented for root");
                let ghost iv = info@;
                errors.push(BevyMarkdownError::Transform { info });
                proof {
                    assert(errors_view(errors@) =~= e1 + seq![ErrorView::Transform(iv)]);
                    assert(transform_errors(one_error(iv).errors) =~= seq![ErrorView::Transform(iv)]);
                    assert(s1 =~= s1 + one_error(iv).spans);
                }
            },
        }
        proof {
            let t = children@.take(i + 1);
            assert(t.drop_last() =~= children@.take(i as int));
            assert(t.last() == children@[i as int]);
            lemma_extends_then_l(
                s0,
                e0,
                s1,
                e1,
                spans_view(text_spans@),
                errors_view(errors@),
                root_seq_out(children@.take(i as int), theme),
                root_child_out(children@[i as int], theme),
            );
        }
        i = i + 1;
    }
    proof {
        assert(children@.take(children.len() as int) =~= children@);
    }
}

/// Cuts the text of one span into the lines, styling its pieces with
/// `attrs`.
fn cut_span(lines: &mut Vec<Vec<(String, LineAttrs)>>, text: &String, attrs: LineAttrs)
    requires
        old(lines)@.len() > 0,
    ensures
        final(lines)@.len() > 0,
        lines_view(final(lines)@) == span_lines(lines_view(old(lines)@), text@, attrs),
{
    let ghost l0 = lines_view(lines@);
    let ghost whole = text@;
    let mut temp = String::new();
    proof {
        assert(whole.take(0) =~= Seq::<char>::empty());
    }
    for ch in it: text.chars()
        invariant
            it.seq() == whole,
            lines@.len() > 0,
            (lines_view(lines@), temp@) == scan(l0, whole.take(it.index() as int), attrs),
    {
        let ghost before = (lines_view(lines@), temp@);
        proof {
            let t = whole.take(it.index() + 1);
            assert(t.drop_last() =~= whole.take(it.index() as int));
            assert(t.last() == ch);
        }
        if ch == '\n' {
            if !temp.as_str().is_empty() {
                let n = lines.len();
                let piece = (temp, attrs);
                lines[n - 1].push(piece);
                proof {
                    assert(lines_view(lines@) =~~= add_piece(before.0, (before.1, attrs)));
                }
                temp = String::new();
            }
            let ghost mid = lines_view(lines@);
            lines.push(Vec::new());
            proof {
                assert(lines_view(lines@) =~~= mid.push(Seq::empty()));
            }
        } else {
            crate::text::push_char(&mut temp, ch);
        }
    }
    proof {
        assert(whole.take(whole.len() as int) =~= whole);
    }
    if !temp.as_str().is_empty() {
        let ghost before = lines_view(lines@);
        let n = lines.len();
        let ghost tv = temp@;
        lines[n - 1].push((temp, attrs));
        proof {
            assert(lines_view(lines@) =~~= add_piece(before, (tv, attrs)));
        }
    }
}

/// Cuts rendered spans into lines of styled pieces and collects the
/// metadata of each span.
pub fn spans_into_lines(text_spans: &Vec<TextSpan>) -> (r: BevyMarkdownLines)
    ensures
        lines_view(r.lines@) == spans_to_lines(spans_view(text_spans@)),
        r.span_metadata@.map_values(|m: TextSpanMetadata| m@) == spans_view(text_spans@).map_values(
            |s: SpanView| span_link(s),
        ),
{
    let ghost sv = spans_view(text_spans@);
    let mut spans_meta: Vec<TextSpanMetadata> = Vec::new();
    let mut lines: Vec<Vec<(String, LineAttrs)>> = Vec::new();
    lines.push(Vec::new());
    proof {
        assert(sv.take(0) =~= Seq::<SpanView>::empty());
        assert(lines_view(lines@) =~~= seq![Seq::<(Seq<char>, LineAttrs)>::empty()]);
        assert(spans_meta@.map_values(|m: TextSpanMetadata| m@) =~= sv.take(0).map_values(|s: SpanView| span_link(s)));
    }
    let mut i: usize = 0;
    while i < text_spans.len()
        invariant
            i <= text_spans.len(),
            sv == spans_view(text_spans@),
            lines@.len() > 0,
            lines_view(lines@) == spans_to_lines(sv.take(i as int)),
            spans_meta@.map_values(|m: TextSpanMetadata| m@) == sv.take(i as int).map_values(
                |s: SpanView| span_link(s),
            ),
        decreases text_spans.len() - i,
    {
        let span = &text_spans[i];
        let attrs = LineAttrs { color: span.color, style: span.style, weight: span.weigth, metadata: i };
        assert(sv[i as int] == span@);
        let meta = match &span.metadata {
            Some(metadata) => metadata.duplicate(),
            None => TextSpanMetadata { link: None },
        };
        assert(meta@ == span_link(sv[i as int]));
        let ghost mv0 = spans_meta@;
        spans_meta.push(meta);
        assert(spans_meta@ == mv0.push(meta));
        proof {
            let t = sv.take(i + 1);
            assert(t.drop_last() =~= sv.take(i as int));
            assert(t.last() == sv[i as int]);
            assert(attrs == span_attrs(sv[i as int], i as int));
            assert(spans_meta@.map_values(|m: TextSpanMetadata| m@) =~= mv0.map_values(|m: TextSpanMetadata| m@).push(meta@));
            assert(t.map_values(|s: SpanView| span_link(s)) =~= sv.take(i as int).map_values(|s: SpanView| span_link(s)).push(span_link(sv[i as int])));
        }
        cut_span(&mut lines, &span.text, attrs);
        i = i + 1;
    }
    proof {
        assert(sv.take(text_spans.len() as int) =~= sv);
    }
    BevyMarkdownLines { lines, span_metadata: spans_meta }
}

/// The errors that rendering a text reports, or `None` when it succeeds:
/// the parse error where the text does not parse, else the transform errors
/// met while rendering its tree.
pub open spec fn expected_errors(text: Seq<char>, theme: BevyMarkdownTheme) -> Option<Seq<ErrorView>> {
    match markdown_syntax_tree(text) {
        Err(msg) => Some(seq![ErrorView::Parsing(msg)]),
        Ok(tree) => if tree_out(tree, theme).errors.len() > 0 {
            Some(transform_errors(tree_out(tree, theme).errors))
        } else {
            None
        },
    }
}

/// The spans that rendering a text gives.
pub open spec fn expected_spans(text: Seq<char>, theme: BevyMarkdownTheme) -> Seq<SpanView> {
    match markdown_syntax_tree(text) {
        Err(_) => Seq::empty(),
        Ok(tree) => tree_out(tree, theme).spans,
    }
}

/// Whether `r` is the outcome of rendering `text` with `theme`: its errors
/// where rendering reports errors, else the lines cut from its spans and the
/// spans' metadata.
pub open spec fn is_rendering(
    text: Seq<char>,
    theme: BevyMarkdownTheme,
    r: Result<BevyMarkdownLines, Vec<BevyMarkdownError>>,
) -> bool {
    match r {
        Err(e) => expected_errors(text, theme) == Some(errors_view(e@)),
        Ok(l) => {
            &&& expected_errors(text, theme) is None
            &&& lines_view(l.lines@) == spans_to_lines(expected_spans(text, theme))
            &&& l.span_metadata@.map_values(|m: TextSpanMetadata| m@) == expected_spans(text, theme).map_values(
                |s: SpanView| span_link(s),
            )
        },
    }
}

/// Renders markdown into lines of styled pieces: parses the text, renders
/// its blocks into spans (headings, paragraphs with inline markup, code
/// blocks highlighted in their language, nested lists), and cuts the spans
/// into lines at each line break. Fails with the parse error, or with every
/// transform error met, where there are any.
pub fn generate_markdown_lines(bevy_markdown: BevyMarkdown) -> (r: Result<
    BevyMarkdownLines,
    Vec<BevyMarkdownError>,
>)
    requires
        markdown_renderable(bevy_markdown.text@, bevy_markdown.markdown_theme),
    ensures
        is_rendering(bevy_markdown.text@, bevy_markdown.markdown_theme, r),
{
    let ghost text = bevy_markdown.text@;
    let ghost theme = bevy_markdown.markdown_theme;
    let node = parse_markdown(bevy_markdown.text.as_str());
    match node {
        Ok(tree) => {
            let mut text_spans: Vec<TextSpan> = Vec::new();
            let mut errors: Vec<BevyMarkdownError> = Vec::new();
            match &tree {
                MdNode::Root { children, .. } => {
                    render_root_children(children, &bevy_markdown, &mut text_spans, &mut errors);
                    proof {
                        assert(spans_view(Seq::<TextSpan>::empty()) =~= Seq::<SpanView>::empty());
                        assert(errors_view(Seq::<BevyMarkdownError>::empty()) =~= Seq::<ErrorView>::empty());
                    }
                },
                other => {
                    let mut info = String::from_str("unexpected node: ");
                    let d = debug_text(other);
                    push_str(&mut info, d.as_str());
                    let ghost iv = info@;
                    errors.push(BevyMarkdownError::Transform { info });
                    proof {
                        assert(errors_view(errors@) =~= seq![ErrorView::Transform(iv)]);
                        assert(transform_errors(one_error(iv).errors) =~= seq![ErrorView::Transform(iv)]);
                        assert(spans_view(text_spans@) =~= one_error(iv).spans);
                    }
                },
            }
            proof {
                let out = tree_out(tree, theme);
                assert(spans_view(text_spans@) =~= out.spans);
                assert(errors_view(errors@) =~= transform_errors(out.errors));
                assert(transform_errors(out.errors).len() == out.errors.len());
            }
            if errors.len() > 0 {
                Err(errors)
            } else {
                Ok(spans_into_lines(&text_spans))
            }
        },
        Err(e) => {
            let ghost ev = e@;
            let errors = vec![BevyMarkdownError::Parsing { info: e }];
            proof {
                assert(errors_view(errors@) =~= seq![ErrorView::Parsing(ev)]);
            }
            Err(errors)
        },
    }
}

/// Whether a list can be rendered at `level` without overflow.
pub fn check_list_ok(list: &MdList, level: u8) -> (ok: bool)
    ensures
        ok == list_ok(list.ordered, list.start, list.children@, level),
    decreases list,
{
    let ghost children = list.children@;
    let mut count: u128 = 0;
    let mut all_ok = true;
    let mut i: usize = 0;
    proof {
        assert(children.take(0) =~= Seq::<MdNode>::empty());
    }
    while i < list.children.len()
        invariant
            i <= list.children.len(),
            children == list.children@,
            count == count_items(children.take(i as int)),
            count <= i,
            all_ok == list_children_ok(children.take(i as int), level),
        decreases list.children.len() - i,
    {
        proof {
            let t = children.take(i + 1);
            assert(t.drop_last() =~= children.take(i as int));
            assert(t.last() == children[i as int]);
        }
        match &list.children[i] {
            MdNode::ListItem { children: item_children, debug: item_debug } => {
                count = count + 1;
                let ghost items = item_children@;
                let mut item_ok = true;
                let mut j: usize = 0;
                proof {
                    assert(items.take(0) =~= Seq::<MdNode>::empty());
                }
                while j < item_children.len()
                    invariant
                        j <= item_children.len(),
                        items == item_children@,
                        i < list.children.len(),
                        list.children@[i as int] == (MdNode::ListItem { children: *item_children, debug: *item_debug }),
                        item_ok == item_seq_ok(items.take(j as int), level),
                    decreases item_children.len() - j,
                {
                    proof {
                        let t = items.take(j + 1);
                        assert(t.drop_last() =~= items.take(j as int));
                        assert(t.last() == items[j as int]);
                    }
                    let child_ok = match &item_children[j] {
                        MdNode::List(inner) => {
                            proof {
                                let item = list.children@[i as int];
                                let node = item_children@[j as int];
                                assert(decreases_to!(list => list.children));
                                assert(decreases_to!(list.children => list.children@));
                                assert(decreases_to!(list.children@ => item));
                                assert(item->ListItem_children == *item_children);
                                assert(decreases_to!(item => item->ListItem_children));
                                assert(decreases_to!(*item_children => item_children@));
                                assert(decreases_to!(item_children@ => node));
                                assert(node->List_0 == *inner);
                                assert(decreases_to!(node => node->List_0));
                            }
                            level < 255 && check_list_ok(inner, level + 1)
                        },
                        _ => true,
                    };
                    proof {
                        let t = items.take(j + 1);
                        assert(item_seq_ok(t, level) == (item_seq_ok(t.drop_last(), level) && item_child_ok(t.last(), level)));
                        assert(child_ok == item_child_ok(items[j as int], level));
                    }
                    item_ok = item_ok && child_ok;
                    j = j + 1;
                }
                proof {
                    assert(items.take(items.len() as int) =~= items);
                }
                proof {
                    assert(list_child_ok(children[i as int], level) == item_ok);
                }
                all_ok = all_ok && item_ok;
            },
            _ => {},
        }
        proof {
            let t = children.take(i + 1);
            assert(list_children_ok(t, level) == (list_children_ok(t.drop_last(), level) && list_child_ok(t.last(), level)));
            assert(count_items(t) == count_items(t.drop_last()) + if t.last() is ListItem { 1nat } else { 0nat });
        }
        i = i + 1;
    }
    proof {
        assert(children.take(children.len() as int) =~= children);
    }
    let numbering_ok = if list.ordered {
        match list.start {
            Some(start) => (start as u128) + count <= 0xFFFF_FFFFu128,
            None => false,
        }
    } else {
        true
    };
    numbering_ok && all_ok
}

/// Whether a syntax tree can be rendered with a theme without a failure that
/// would stop the renderer.
pub fn check_tree_ok(tree: &MdNode, theme: &BevyMarkdownTheme) -> (ok: bool)
    ensures
        ok == tree_ok(*tree, *theme),
{
    match tree {
        MdNode::Root { children, .. } => {
            let ghost nodes = children@;
            let mut all_ok = true;
            let mut i: usize = 0;
            proof {
                assert(nodes.take(0) =~= Seq::<MdNode>::empty());
            }
            while i < children.len()
                invariant
                    i <= children.len(),
                    nodes == children@,
                    all_ok == root_seq_ok(nodes.take(i as int), *theme),
                decreases children.len() - i,
            {
                proof {
                    let t = nodes.take(i + 1);
                    assert(t.drop_last() =~= nodes.take(i as int));
                    assert(t.last() == nodes[i as int]);
                }
                let child_ok = match &children[i] {
                    MdNode::Code { lang, value, .. } => {
                        let lang_text: &str = match lang {
                            Some(l) => l.as_str(),
                            None => theme.code_default_lang.as_str(),
                        };
                        highlight_code(value.as_str(), lang_text, theme.code_theme.as_str()).is_some()
                    },
                    MdNode::List(list) => check_list_ok(list, 0),
                    _ => true,
                };
                all_ok = all_ok && child_ok;
                i = i + 1;
            }
            proof {
                assert(nodes.take(nodes.len() as int) =~= nodes);
            }
            all_ok
        },
        _ => true,
    }
}

/// Renders markdown where it can be rendered without a failure that would
/// stop the renderer (see [`generate_markdown_lines`]), and gives `None`
/// where it cannot: where a code block's language or the highlighting theme
/// is unknown, or a list overflows its numbering or nesting.
pub fn try_generate_markdown_lines(bevy_markdown: BevyMarkdown) -> (r: Option<
    Result<BevyMarkdownLines, Vec<BevyMarkdownError>>,
>)
    ensures
        r is Some <==> markdown_renderable(bevy_markdown.text@, bevy_markdown.markdown_theme),
        r matches Some(res) ==> is_rendering(bevy_markdown.text@, bevy_markdown.markdown_theme, res),
{
    let ok = match parse_markdown(bevy_markdown.text.as_str()) {
        Ok(tree) => check_tree_ok(&tree, &bevy_markdown.markdown_theme),
        Err(_) => true,
    };
    if ok {
        Some(generate_markdown_lines(bevy_markdown))
    } else {
        None
    }
}

/// The text of a line: its pieces' texts one after another.
pub open spec fn line_text(line: LineView) -> Seq<char>
    decreases line.len(),
{
    if line.len() == 0 {
        Seq::empty()
    } else {
        line_text(line.drop_last()) + line.last().0
    }
}

/// The text of rendered lines: the lines' texts joined by line breaks.
pub open spec fn lines_text(lines: Seq<LineView>) -> Seq<char> {
    join_lines(lines.map_values(|l: LineView| line_text(l)))
}

/// The text of spans: their texts one after another.
pub open spec fn spans_text(spans: Seq<SpanView>) -> Seq<char>
    decreases spans.len(),
{
    if spans.len() == 0 {
        Seq::empty()
    } else {
        spans_text(spans.drop_last()) + spans.last().text
    }
}

proof fn lemma_lines_text_push(lines: Seq<LineView>, line: LineView)
    requires
        lines.len() > 0,
    ensures
        lines_text(lines.push(line)) == lines_text(lines).push('\n') + line_text(line),
{
    let m = lines.push(line).map_values(|l: LineView| line_text(l));
    assert(m.drop_last() =~= lines.map_values(|l: LineView| line_text(l)));
    assert(m.last() == line_text(line));
}

proof fn lemma_lines_text_add_piece(lines: Seq<LineView>, piece: (Seq<char>, LineAttrs))
    requires
        lines.len() > 0,
    ensures
        lines_text(add_piece(lines, piece)) == lines_text(lines) + piece.0,
{
    let n = lines.len();
    let new_last = lines.last().push(piece);
    assert(new_last.drop_last() =~= lines.last());
    assert(line_text(new_last) == line_text(lines.last()) + piece.0);
    let m0 = lines.map_values(|l: LineView| line_text(l));
    let m1 = add_piece(lines, piece).map_values(|l: LineView| line_text(l));
    if n == 1 {
        assert(m1 =~= seq![line_text(new_last)]);
        assert(m0 =~= seq![line_text(lines.last())]);
    } else {
        assert(m1.drop_last() =~= m0.drop_last());
        assert(m1.last() == line_text(new_last));
        assert(join_lines(m1) == join_lines(m0.drop_last()).push('\n') + line_text(new_last));
        assert(join_lines(m0) == join_lines(m0.drop_last()).push('\n') + line_text(lines.last()));
    }
    assert(lines_text(add_piece(lines, piece)) =~= lines_text(lines) + piece.0);
}

proof fn lemma_scan_text(lines: Seq<LineView>, text: Seq<char>, a: LineAttrs)
    requires
        lines.len() > 0,
    ensures
        scan(lines, text, a).0.len() > 0,
        lines_text(scan(lines, text, a).0) + scan(lines, text, a).1 == lines_text(lines) + text,
    decreases text.len(),
{
    if text.len() > 0 {
        lemma_scan_text(lines, text.drop_last(), a);
        let (l, t) = scan(lines, text.drop_last(), a);
        let l2 = if t.len() > 0 {
            add_piece(l, (t, a))
        } else {
            l
        };
        if t.len() > 0 {
            lemma_lines_text_add_piece(l, (t, a));
        } else {
            assert(lines_text(l) + t =~= lines_text(l));
        }
        assert(lines_text(l2) == lines_text(l) + t);
        lemma_lines_text_push(l2, Seq::empty());
        assert(line_text(Seq::<(Seq<char>, LineAttrs)>::empty()) =~= Seq::<char>::empty());
        assert(text =~= text.drop_last().push(text.last()));
        let (l3, t3) = scan(lines, text, a);
        let prev = lines_text(lines) + text.drop_last();
        assert(lines_text(l) + t == prev);
        assert(lines_text(lines) + text =~= prev.push(text.last()));
        if text.last() == '\n' {
            assert(l3 == l2.push(Seq::empty()));
            assert(t3 == Seq::<char>::empty());
            assert(lines_text(l3) == lines_text(l2).push('\n') + Seq::<char>::empty());
            assert(lines_text(l3) + t3 =~= prev.push('\n'));
        } else {
            assert(l3 == l);
            assert(t3 == t.push(text.last()));
            assert(lines_text(l3) + t3 =~= prev.push(text.last()));
        }
    } else {
        assert(lines_text(lines) + Seq::<char>::empty() =~= lines_text(lines) + text);
    }
}

proof fn lemma_span_lines_text(lines: Seq<LineView>, text: Seq<char>, a: LineAttrs)
    requires
        lines.len() > 0,
    ensures
        span_lines(lines, text, a).len() > 0,
        lines_text(span_lines(lines, text, a)) == lines_text(lines) + text,
{
    lemma_scan_text(lines, text, a);
    let (l, t) = scan(lines, text, a);
    if t.len() > 0 {
        lemma_lines_text_add_piece(l, (t, a));
    } else {
        assert(lines_text(l) + t =~= lines_text(l));
    }
}

/// Cutting spans into lines keeps their text: the lines' texts joined by
/// line breaks are exactly the spans' texts one after another. No character
/// is lost, added or moved; each line break of the text separates two
/// lines.
pub proof fn lemma_lines_keep_text(spans: Seq<SpanView>)
    ensures
        spans_to_lines(spans).len() > 0,
        lines_text(spans_to_lines(spans)) == spans_text(spans),
    decreases spans.len(),
{
    if spans.len() == 0 {
        let m = seq![Seq::<(Seq<char>, LineAttrs)>::empty()].map_values(|l: LineView| line_text(l));
        assert(m =~= seq![Seq::<char>::empty()]);
        assert(lines_text(spans_to_lines(spans)) =~= Seq::<char>::empty());
    } else {
        lemma_lines_keep_text(spans.drop_last());
        lemma_span_lines_text(
            spans_to_lines(spans.drop_last()),
            spans.last().text,
            span_attrs(spans.last(), spans.len() - 1),
        );
    }
}


/// One line of the text editor's buffer: its text and, for each styled
/// piece in order, the byte range it covers in the text and its attributes.
pub struct BufferLine {
    pub text: String,
    pub spans: Vec<(usize, usize, LineAttrs)>,
}

/// The texts of the pieces of a rendered line.
pub open spec fn piece_texts(line: Seq<(String, LineAttrs)>) -> Seq<Seq<char>> {
    line.map_values(|p: (String, LineAttrs)| p.0@)
}

/// Whether `b` lays out the rendered line `line`: its text is the pieces'
/// texts one after another, and piece `k` covers the bytes from the end of
/// the pieces before it to its own end, with its own attributes.
pub open spec fn lays_out(b: BufferLine, line: Seq<(String, LineAttrs)>) -> bool {
    &&& b.text@ == concat_all(piece_texts(line))
    &&& b.spans.len() == line.len()
    &&& forall|k: int|
        0 <= k < line.len() ==> #[trigger] b.spans@[k] == (
            byte_len(concat_all(piece_texts(line).take(k))) as usize,
            byte_len(concat_all(piece_texts(line).take(k + 1))) as usize,
            line[k].1,
        )
}

/// The editor buffer of a rendering: one buffer line per rendered line, in
/// order, and nothing else, so the buffer's old lines are all replaced.
pub fn buffer_lines(lines: &BevyMarkdownLines) -> (buffer: Vec<BufferLine>)
    ensures
        buffer.len() == lines.lines.len(),
        forall|i: int| 0 <= i < lines.lines.len() ==> lays_out(#[trigger] buffer@[i], lines.lines@[i]@),
{
    let mut buffer: Vec<BufferLine> = Vec::new();
    let mut i: usize = 0;
    while i < lines.lines.len()
        invariant
            i <= lines.lines.len(),
            buffer.len() == i,
            forall|j: int| 0 <= j < i ==> lays_out(#[trigger] buffer@[j], lines.lines@[j]@),
        decreases lines.lines.len() - i,
    {
        let line = &lines.lines[i];
        let mut texts: Vec<String> = Vec::new();
        let mut k: usize = 0;
        while k < line.len()
            invariant
                k <= line.len(),
                texts.len() == k,
                forall|j: int| 0 <= j < k ==> #[trigger] texts@[j]@ == line@[j].0@,
            decreases line.len() - k,
        {
            texts.push(line[k].0.clone());
            k = k + 1;
        }
        proof {
            assert(texts@.map_values(|t: String| t@) =~= piece_texts(line@));
        }
        let (text, ranges) = line_layout(&texts);
        let mut spans: Vec<(usize, usize, LineAttrs)> = Vec::new();
        let mut k: usize = 0;
        while k < line.len()
            invariant
                k <= line.len(),
                ranges.len() == line.len(),
                texts@.map_values(|t: String| t@) == piece_texts(line@),
                forall|j: int|
                    0 <= j < line.len() ==> #[trigger] ranges@[j] == (
                        byte_len(concat_all(piece_texts(line@).take(j))) as usize,
                        byte_len(concat_all(piece_texts(line@).take(j + 1))) as usize,
                    ),
                spans.len() == k,
                forall|j: int|
                    0 <= j < k ==> #[trigger] spans@[j] == (
                        byte_len(concat_all(piece_texts(line@).take(j))) as usize,
                        byte_len(concat_all(piece_texts(line@).take(j + 1))) as usize,
                        line@[j].1,
                    ),
            decreases line.len() - k,
        {
            let (start, end) = ranges[k];
            spans.push((start, end, line[k].1));
            k = k + 1;
        }
        let b = BufferLine { text, spans };
        proof {
            assert(lays_out(b, line@));
        }
        buffer.push(b);
        i = i + 1;
    }
    buffer
}

} // verus!
