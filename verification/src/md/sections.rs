//! Markdown rendered into flat text sections for a node's read-only view:
//! paragraphs with bold, italic and link text, and highlighted code blocks.
//! Each section names its font and color; a link section carries its URL.

use vstd::prelude::*;
use crate::md::style::{BevyMarkdownError, ErrorView};
use crate::md::tree::{
    debug_text, highlight_code, highlighted_code, markdown_syntax_tree, node_debug, parse_markdown,
    HighlightPiece, HighlightView, MdNode,
};
use crate::text::push_str;

verus! {

/// The font a section is drawn with.
#[derive(Clone, Copy, Debug, PartialEq, Eq, Structural)]
pub enum FontKind {
    Regular,
    Bold,
    Italic,
    SemiBoldItalic,
    ExtraBold,
}

/// The color a section is drawn in.
#[derive(Clone, Copy, Debug, PartialEq, Eq, Structural)]
pub enum SectionColor {
    Black,
    Blue,
    /// Fully transparent.
    Clear,
    /// Red, green, blue and alpha channels.
    Rgba(u8, u8, u8, u8),
}

/// A piece of text with its font and color, and the URL it links to.
#[derive(Debug)]
pub struct Section {
    pub text: String,
    pub font: FontKind,
    pub color: SectionColor,
    pub link: Option<String>,
}

/// The value of a section.
pub struct SectionView {
    pub text: Seq<char>,
    pub font: FontKind,
    pub color: SectionColor,
    pub link: Option<Seq<char>>,
}

/// An optional text, by value.
pub open spec fn opt_text(o: Option<String>) -> Option<Seq<char>> {
    match o {
        Some(l) => Some(l@),
        None => None,
    }
}

impl View for Section {
    type V = SectionView;

    open spec fn view(&self) -> SectionView {
        SectionView { text: self.text@, font: self.font, color: self.color, link: opt_text(self.link) }
    }
}

/// Sections rendered so far and the messages of the problems met.
pub struct Sectioned {
    pub sections: Seq<SectionView>,
    pub errors: Seq<Seq<char>>,
}

/// Nothing rendered.
pub open spec fn nothing() -> Sectioned {
    Sectioned { sections: Seq::empty(), errors: Seq::empty() }
}

/// One section.
pub open spec fn one(s: SectionView) -> Sectioned {
    Sectioned { sections: seq![s], errors: Seq::empty() }
}

/// One problem.
pub open spec fn problem(info: Seq<char>) -> Sectioned {
    Sectioned { sections: Seq::empty(), errors: seq![info] }
}

/// `a` followed by `b`.
pub open spec fn and_then(a: Sectioned, b: Sectioned) -> Sectioned {
    Sectioned { sections: a.sections + b.sections, errors: a.errors + b.errors }
}

/// Plain black text in the regular font.
pub open spec fn plain(text: Seq<char>) -> SectionView {
    SectionView { text, font: FontKind::Regular, color: SectionColor::Black, link: None }
}

/// Transparent text in the regular font.
pub open spec fn clear(text: Seq<char>) -> SectionView {
    SectionView { text, font: FontKind::Regular, color: SectionColor::Clear, link: None }
}

/// The children of a bold, italic or link node: each text child becomes a
/// section in the given font and color (linking to `link`); any other child
/// is the problem `err`.
pub open spec fn styled_children(
    children: Seq<MdNode>,
    font: FontKind,
    color: SectionColor,
    link: Option<Seq<char>>,
    err: Seq<char>,
) -> Sectioned
    decreases children.len(),
{
    if children.len() == 0 {
        nothing()
    } else {
        let rest = styled_children(children.drop_last(), font, color, link, err);
        match children.last() {
            MdNode::Text { value, .. } => and_then(
                rest,
                one(SectionView { text: value@, font, color, link }),
            ),
            _ => and_then(rest, problem(err)),
        }
    }
}

/// A child of a paragraph: a line break, plain text, or bold, italic or
/// link text; any other kind is a problem.
pub open spec fn para_child_sections(node: MdNode) -> Sectioned {
    match node {
        MdNode::Break { .. } => one(plain(seq!['\n'])),
        MdNode::Text { value, .. } => one(plain(value@)),
        MdNode::Strong { children, .. } => styled_children(
            children@,
            FontKind::Bold,
            SectionColor::Black,
            None,
            "nesting in bold is not implemented"@,
        ),
        MdNode::Emphasis { children, .. } => styled_children(
            children@,
            FontKind::Italic,
            SectionColor::Black,
            None,
            "nesting in italic is not implemented"@,
        ),
        MdNode::Link { url, children, .. } => styled_children(
            children@,
            FontKind::SemiBoldItalic,
            SectionColor::Blue,
            Some(url@),
            "nesting in link is not implemented"@,
        ),
        other => problem(node_debug(other) + " node is not implemented for paragraph"@),
    }
}

/// The children of a paragraph, in order.
pub open spec fn para_sections(children: Seq<MdNode>) -> Sectioned
    decreases children.len(),
{
    if children.len() == 0 {
        nothing()
    } else {
        and_then(
            para_sections(children.drop_last()),
            para_child_sections(children.last()),
        )
    }
}

/// The font of a highlighted piece of code: bold pieces in the extra bold
/// font, italic ones in italic, underlined ones in the regular font, and
/// all others in bold.
pub open spec fn code_font(font_style: u8) -> FontKind {
    if font_style == 1 {
        FontKind::ExtraBold
    } else if font_style == 4 {
        FontKind::Italic
    } else if font_style == 2 {
        FontKind::Regular
    } else {
        FontKind::Bold
    }
}

/// The section of a highlighted piece of code.
pub open spec fn code_section(p: HighlightView) -> SectionView {
    SectionView {
        text: p.text,
        font: code_font(p.font_style),
        color: SectionColor::Rgba(p.red, p.green, p.blue, p.alpha),
        link: None,
    }
}

/// The theme code blocks are highlighted with.
pub const CODE_THEME: &'static str = "Solarized (light)";

/// The language of code blocks that name none.
pub const CODE_DEFAULT_LANG: &'static str = "rs";

/// The language a code block is highlighted in.
pub open spec fn block_lang(lang: Option<String>) -> Seq<char> {
    match lang {
        Some(l) => l@,
        None => CODE_DEFAULT_LANG@,
    }
}

/// A child of the root: a code block (two transparent line breaks, its
/// highlighted pieces, a transparent line break), or a paragraph (a line
/// break, then its children); any other kind is a problem.
pub open spec fn root_child_sections(node: MdNode) -> Sectioned {
    match node {
        MdNode::Code { lang, value, .. } => Sectioned {
            sections: seq![clear(seq!['\n', '\n'])] + highlighted_code(
                value@,
                block_lang(lang),
                CODE_THEME@,
            )->0.map_values(|p: HighlightView| code_section(p)) + seq![clear(seq!['\n'])],
            errors: Seq::empty(),
        },
        MdNode::Paragraph { children, .. } => and_then(
            one(plain(seq!['\n'])),
            para_sections(children@),
        ),
        other => problem(node_debug(other) + " node is not implemented for root"@),
    }
}

/// The children of the root, in order.
pub open spec fn root_sections(children: Seq<MdNode>) -> Sectioned
    decreases children.len(),
{
    if children.len() == 0 {
        nothing()
    } else {
        and_then(root_sections(children.drop_last()), root_child_sections(children.last()))
    }
}

/// Whether every code block among the root's children can be highlighted.
pub open spec fn code_blocks_ok(children: Seq<MdNode>) -> bool {
    forall|i: int|
        0 <= i < children.len() ==> (#[trigger] children[i] matches MdNode::Code { lang, value, .. }
            ==> highlighted_code(value@, block_lang(lang), CODE_THEME@) is Some)
}

/// Whether `text` can be rendered into sections: every code block at the
/// top of its tree is in a known language.
pub open spec fn sections_renderable(text: Seq<char>) -> bool {
    match markdown_syntax_tree(text) {
        Ok(MdNode::Root { children, .. }) => code_blocks_ok(children@),
        _ => true,
    }
}

/// The rendering of `text` into sections: the parse error, else the
/// transform problems met, if any, else the sections.
pub open spec fn sections_of(text: Seq<char>) -> Result<Seq<SectionView>, Seq<ErrorView>> {
    match markdown_syntax_tree(text) {
        Err(e) => Err(seq![ErrorView::Parsing(e)]),
        Ok(tree) => {
            let out = match tree {
                MdNode::Root { children, .. } => root_sections(children@),
                other => problem("unexpected node: "@ + node_debug(other)),
            };
            if out.errors.len() > 0 {
                Err(out.errors.map_values(|e: Seq<char>| ErrorView::Transform(e)))
            } else {
                Ok(out.sections)
            }
        },
    }
}

/// The values of sections.
pub open spec fn sections_view(s: Seq<Section>) -> Seq<SectionView> {
    s.map_values(|x: Section| x@)
}

/// The values of transform messages.
pub open spec fn infos_view(s: Seq<String>) -> Seq<Seq<char>> {
    s.map_values(|x: String| x@)
}

fn styled_children_into(
    children: &Vec<MdNode>,
    font: FontKind,
    color: SectionColor,
    link: &Option<String>,
    err: &str,
    out: &mut Vec<Section>,
    errors: &mut Vec<String>,
)
    ensures
        ({
            let r = styled_children(children@, font, color, opt_text(*link), err@);
            &&& sections_view(final(out)@) == sections_view(old(out)@) + r.sections
            &&& infos_view(final(errors)@) == infos_view(old(errors)@) + r.errors
        }),
{
    let ghost lv = opt_text(*link);
    let mut i: usize = 0;
    proof {
        assert(sections_view(out@) =~= sections_view(old(out)@) + nothing().sections);
        assert(infos_view(errors@) =~= infos_view(old(errors)@) + nothing().errors);
    }
    while i < children.len()
        invariant
            i <= children.len(),
            lv == opt_text(*link),
            ({
                let r = styled_children(children@.take(i as int), font, color, lv, err@);
                &&& sections_view(out@) == sections_view(old(out)@) + r.sections
                &&& infos_view(errors@) == infos_view(old(errors)@) + r.errors
            }),
        decreases children.len() - i,
    {
        proof {
            assert(children@.take(i + 1).drop_last() =~= children@.take(i as int));
            assert(children@.take(i + 1).last() == children@[i as int]);
        }
        let ghost so = sections_view(out@);
        let ghost eo = infos_view(errors@);
        match &children[i] {
            MdNode::Text { value, .. } => {
                let l = match link {
                    Some(u) => Some(u.clone()),
                    None => None,
                };
                assert(l == *link);
                let t = value.clone();
                assert(t@ == value@);
                let sec = Section { text: t, font, color, link: l };
                let ghost sv = sec@;
                out.push(sec);
                proof {
                    assert(sv == SectionView { text: value@, font, color, link: lv });
                    assert(sections_view(out@) =~= so.push(sv));
                    let r0 = styled_children(children@.take(i as int), font, color, lv, err@);
                    assert(sections_view(old(out)@) + r0.sections + seq![sv] =~= sections_view(
                        old(out)@,
                    ) + (r0.sections + seq![sv]));
                    assert(r0.errors + Seq::<Seq<char>>::empty() =~= r0.errors);
                }
            },
            _ => {
                let e = err.to_string();
                let ghost ev = e@;
                errors.push(e);
                proof {
                    assert(infos_view(errors@) =~= eo.push(ev));
                    let r0 = styled_children(children@.take(i as int), font, color, lv, err@);
                    assert(infos_view(old(errors)@) + r0.errors + seq![ev] =~= infos_view(
                        old(errors)@,
                    ) + (r0.errors + seq![ev]));
                    assert(r0.sections + Seq::<SectionView>::empty() =~= r0.sections);
                }
            },
        }
        i = i + 1;
    }
    proof {
        assert(children@.take(children.len() as int) =~= children@);
    }
}

fn para_child_into(node: &MdNode, out: &mut Vec<Section>, errors: &mut Vec<String>)
    ensures
        ({
            let r = para_child_sections(*node);
            &&& sections_view(final(out)@) == sections_view(old(out)@) + r.sections
            &&& infos_view(final(errors)@) == infos_view(old(errors)@) + r.errors
        }),
{
    match node {
        MdNode::Break { .. } => {
            let sec = Section {
                text: String::from_str("\n"),
                font: FontKind::Regular,
                color: SectionColor::Black,
                link: None,
            };
            proof {
                reveal_strlit("\n");
                assert(sec@.text =~= seq!['\n']);
            }
            let ghost sv = sec@;
            out.push(sec);
            proof {
                assert(sections_view(out@) =~= sections_view(old(out)@) + seq![sv]);
                assert(infos_view(errors@) =~= infos_view(old(errors)@) + Seq::<Seq<char>>::empty());
            }
        },
        MdNode::Text { value, .. } => {
            let sec = Section {
                text: value.clone(),
                font: FontKind::Regular,
                color: SectionColor::Black,
                link: None,
            };
            let ghost sv = sec@;
            out.push(sec);
            proof {
                assert(sections_view(out@) =~= sections_view(old(out)@) + seq![sv]);
                assert(infos_view(errors@) =~= infos_view(old(errors)@) + Seq::<Seq<char>>::empty());
            }
        },
        MdNode::Strong { children, .. } => {
            styled_children_into(
                children,
                FontKind::Bold,
                SectionColor::Black,
                &None,
                "nesting in bold is not implemented",
                out,
                errors,
            );
        },
        MdNode::Emphasis { children, .. } => {
            styled_children_into(
                children,
                FontKind::Italic,
                SectionColor::Black,
                &None,
                "nesting in italic is not implemented",
                out,
                errors,
            );
        },
        MdNode::Link { url, children, .. } => {
            let link = Some(url.clone());
            styled_children_into(
                children,
                FontKind::SemiBoldItalic,
                SectionColor::Blue,
                &link,
                "nesting in link is not implemented",
                out,
                errors,
            );
        },
        other => {
            let mut info = debug_text(other);
            push_str(&mut info, " node is not implemented for paragraph");
            let ghost iv = info@;
            errors.push(info);
            proof {
                assert(sections_view(out@) =~= sections_view(old(out)@) + Seq::<SectionView>::empty());
                assert(infos_view(errors@) =~= infos_view(old(errors)@) + seq![iv]);
            }
        },
    }
}

fn code_into(pieces: &Vec<HighlightPiece>, out: &mut Vec<Section>)
    ensures
        sections_view(final(out)@) == sections_view(old(out)@) + pieces@.map_values(
            |p: HighlightPiece| p@,
        ).map_values(|p: HighlightView| code_section(p)),
{
    let ghost pv = pieces@.map_values(|p: HighlightPiece| p@);
    let mut i: usize = 0;
    proof {
        assert(sections_view(out@) =~= sections_view(old(out)@) + pv.take(0).map_values(
            |p: HighlightView| code_section(p),
        ));
    }
    while i < pieces.len()
        invariant
            i <= pieces.len(),
            pv == pieces@.map_values(|p: HighlightPiece| p@),
            sections_view(out@) == sections_view(old(out)@) + pv.take(i as int).map_values(
                |p: HighlightView| code_section(p),
            ),
        decreases pieces.len() - i,
    {
        let p = &pieces[i];
        let font = if p.font_style == 1 {
            FontKind::ExtraBold
        } else if p.font_style == 4 {
            FontKind::Italic
        } else if p.font_style == 2 {
            FontKind::Regular
        } else {
            FontKind::Bold
        };
        let sec = Section {
            text: p.text.clone(),
            font,
            color: SectionColor::Rgba(p.red, p.green, p.blue, p.alpha),
            link: None,
        };
        let ghost so = sections_view(out@);
        out.push(sec);
        proof {
            assert(pv[i as int] == pieces@[i as int]@);
            assert(sections_view(out@) =~= so.push(code_section(pv[i as int])));
            assert(pv.take(i + 1).map_values(|p: HighlightView| code_section(p)) =~= pv.take(
                i as int,
            ).map_values(|p: HighlightView| code_section(p)).push(code_section(pv[i as int])));
        }
        i = i + 1;
    }
    proof {
        assert(pv.take(pieces.len() as int) =~= pv);
    }
}

fn root_child_into(node: &MdNode, out: &mut Vec<Section>, errors: &mut Vec<String>)
    requires
        *node matches MdNode::Code { lang, value, .. } ==> highlighted_code(
            value@,
            block_lang(lang),
            CODE_THEME@,
        ) is Some,
    ensures
        ({
            let r = root_child_sections(*node);
            &&& sections_view(final(out)@) == sections_view(old(out)@) + r.sections
            &&& infos_view(final(errors)@) == infos_view(old(errors)@) + r.errors
        }),
{
    match node {
        MdNode::Code { lang, value, .. } => {
            let l: &str = match lang {
                Some(l) => l.as_str(),
                None => CODE_DEFAULT_LANG,
            };
            let pieces = highlight_code(value.as_str(), l, CODE_THEME).unwrap();
            let head = Section {
                text: String::from_str("\n\n"),
                font: FontKind::Regular,
                color: SectionColor::Clear,
                link: None,
            };
            proof {
                reveal_strlit("\n\n");
                assert(head@.text =~= seq!['\n', '\n']);
            }
            let ghost hv = head@;
            let ghost s0 = sections_view(out@);
            out.push(head);
            proof {
                assert(sections_view(out@) =~= s0 + seq![hv]);
            }
            code_into(&pieces, out);
            let tail = Section {
                text: String::from_str("\n"),
                font: FontKind::Regular,
                color: SectionColor::Clear,
                link: None,
            };
            proof {
                reveal_strlit("\n");
                assert(tail@.text =~= seq!['\n']);
            }
            let ghost tv = tail@;
            let ghost s1 = sections_view(out@);
            out.push(tail);
            proof {
                assert(sections_view(out@) =~= s1 + seq![tv]);
                let r = root_child_sections(*node);
                assert(sections_view(out@) =~= s0 + r.sections);
                assert(infos_view(errors@) =~= infos_view(old(errors)@) + r.errors);
            }
        },
        MdNode::Paragraph { children, .. } => {
            let head = Section {
                text: String::from_str("\n"),
                font: FontKind::Regular,
                color: SectionColor::Black,
                link: None,
            };
            proof {
                reveal_strlit("\n");
                assert(head@.text =~= seq!['\n']);
            }
            let ghost hv = head@;
            let ghost s0 = sections_view(out@);
            out.push(head);
            proof {
                assert(sections_view(out@) =~= s0 + seq![hv]);
            }
            let ghost s1 = sections_view(out@);
            let ghost e1 = infos_view(errors@);
            let mut i: usize = 0;
            proof {
                assert(sections_view(out@) =~= s1 + nothing().sections);
                assert(infos_view(errors@) =~= e1 + nothing().errors);
            }
            while i < children.len()
                invariant
                    i <= children.len(),
                    ({
                        let r = para_sections(children@.take(i as int));
                        &&& sections_view(out@) == s1 + r.sections
                        &&& infos_view(errors@) == e1 + r.errors
                    }),
                decreases children.len() - i,
            {
                proof {
                    assert(children@.take(i + 1).drop_last() =~= children@.take(i as int));
                    assert(children@.take(i + 1).last() == children@[i as int]);
                }
                para_child_into(&children[i], out, errors);
                proof {
                    let r0 = para_sections(children@.take(i as int));
                    let c = para_child_sections(children@[i as int]);
                    assert(s1 + r0.sections + c.sections =~= s1 + (r0.sections + c.sections));
                    assert(e1 + r0.errors + c.errors =~= e1 + (r0.errors + c.errors));
                }
                i = i + 1;
            }
            proof {
                assert(children@.take(children.len() as int) =~= children@);
                let r = root_child_sections(*node);
                assert(sections_view(out@) =~= s0 + r.sections);
                assert(infos_view(errors@) =~= infos_view(old(errors)@) + r.errors);
            }
        },
        other => {
            let mut info = debug_text(other);
            push_str(&mut info, " node is not implemented for root");
            let ghost iv = info@;
            errors.push(info);
            proof {
                assert(sections_view(out@) =~= sections_view(old(out)@) + Seq::<SectionView>::empty());
                assert(infos_view(errors@) =~= infos_view(old(errors)@) + seq![iv]);
            }
        },
    }
}

/// Renders markdown into sections (see `sections_of`); every code block at
/// the top of the text must be in a known language.
pub fn markdown_sections(text: &str) -> (r: Result<Vec<Section>, Vec<BevyMarkdownError>>)
    requires
        sections_renderable(text@),
    ensures
        match r {
            Ok(s) => sections_of(text@) == Ok::<Seq<SectionView>, Seq<ErrorView>>(sections_view(s@)),
            Err(e) => sections_of(text@) == Err::<Seq<SectionView>, Seq<ErrorView>>(
                e@.map_values(|x: BevyMarkdownError| x@),
            ),
        },
{
    match parse_markdown(text) {
        Err(e) => {
            let ghost ev = e@;
            let errs = vec![BevyMarkdownError::Parsing { info: e }];
            proof {
                assert(errs@.map_values(|x: BevyMarkdownError| x@) =~= seq![ErrorView::Parsing(ev)]);
            }
            Err(errs)
        },
        Ok(tree) => {
            let mut out: Vec<Section> = Vec::new();
            let mut errors: Vec<String> = Vec::new();
            match &tree {
                MdNode::Root { children, .. } => {
                    let mut i: usize = 0;
                    proof {
                        assert(sections_view(out@) =~= nothing().sections);
                        assert(infos_view(errors@) =~= nothing().errors);
                    }
                    while i < children.len()
                        invariant
                            i <= children.len(),
                            code_blocks_ok(children@),
                            ({
                                let r = root_sections(children@.take(i as int));
                                &&& sections_view(out@) == r.sections
                                &&& infos_view(errors@) == r.errors
                            }),
                        decreases children.len() - i,
                    {
                        proof {
                            assert(children@.take(i + 1).drop_last() =~= children@.take(i as int));
                            assert(children@.take(i + 1).last() == children@[i as int]);
                        }
                        root_child_into(&children[i], &mut out, &mut errors);
                        i = i + 1;
                    }
                    proof {
                        assert(children@.take(children.len() as int) =~= children@);
                    }
                },
                other => {
                    let mut info = String::from_str("unexpected node: ");
                    let d = debug_text(other);
                    push_str(&mut info, d.as_str());
                    let ghost iv = info@;
                    errors.push(info);
                    proof {
                        reveal_strlit("unexpected node: ");
                        assert(infos_view(errors@) =~= seq![iv]);
                        assert(sections_view(out@) =~= Seq::<SectionView>::empty());
                    }
                },
            }
            if errors.len() > 0 {
                let mut errs: Vec<BevyMarkdownError> = Vec::new();
                let mut j: usize = 0;
                while j < errors.len()
                    invariant
                        j <= errors.len(),
                        errs@.map_values(|x: BevyMarkdownError| x@) == infos_view(errors@).take(
                            j as int,
                        ).map_values(|e: Seq<char>| ErrorView::Transform(e)),
                    decreases errors.len() - j,
                {
                    let e = BevyMarkdownError::Transform { info: errors[j].clone() };
                    let ghost ev = e@;
                    let ghost before = errs@.map_values(|x: BevyMarkdownError| x@);
                    errs.push(e);
                    proof {
                        assert(errs@.map_values(|x: BevyMarkdownError| x@) =~= before.push(ev));
                        assert(infos_view(errors@).take(j + 1).map_values(
                            |e: Seq<char>| ErrorView::Transform(e),
                        ) =~= infos_view(errors@).take(j as int).map_values(
                            |e: Seq<char>| ErrorView::Transform(e),
                        ).push(ErrorView::Transform(errors@[j as int]@)));
                    }
                    j = j + 1;
                }
                proof {
                    assert(infos_view(errors@).take(errors.len() as int) =~= infos_view(errors@));
                }
                Err(errs)
            } else {
                Ok(out)
            }
        },
    }
}

/// Whether every code block among the root's children can be highlighted.
fn check_code_blocks(children: &Vec<MdNode>) -> (ok: bool)
    ensures
        ok == code_blocks_ok(children@),
{
    let mut i: usize = 0;
    while i < children.len()
        invariant
            i <= children.len(),
            code_blocks_ok(children@.take(i as int)),
        decreases children.len() - i,
    {
        proof {
            assert forall|k: int| 0 <= k < i implies #[trigger] children@.take(i + 1)[k]
                == children@.take(i as int)[k] by {}
        }
        match &children[i] {
            MdNode::Code { lang, value, .. } => {
                let l: &str = match lang {
                    Some(l) => l.as_str(),
                    None => CODE_DEFAULT_LANG,
                };
                if highlight_code(value.as_str(), l, CODE_THEME).is_none() {
                    proof {
                        assert(children@[i as int] matches MdNode::Code { .. });
                    }
                    return false;
                }
            },
            _ => {},
        }
        proof {
            assert(children@.take(i + 1)[i as int] == children@[i as int]);
        }
        i = i + 1;
    }
    proof {
        assert(children@.take(children.len() as int) =~= children@);
    }
    true
}

/// Renders markdown into sections: `None` when a code block at the top of
/// the text is in an unknown language, else the answer of
/// `markdown_sections`.
pub fn try_markdown_sections(text: &str) -> (r: Option<Result<Vec<Section>, Vec<BevyMarkdownError>>>)
    ensures
        r is Some <==> sections_renderable(text@),
        r matches Some(res) ==> match res {
            Ok(s) => sections_of(text@) == Ok::<Seq<SectionView>, Seq<ErrorView>>(sections_view(s@)),
            Err(e) => sections_of(text@) == Err::<Seq<SectionView>, Seq<ErrorView>>(
                e@.map_values(|x: BevyMarkdownError| x@),
            ),
        },
{
    let ok = match parse_markdown(text) {
        Ok(MdNode::Root { children, .. }) => check_code_blocks(&children),
        _ => true,
    };
    if ok {
        Some(markdown_sections(text))
    } else {
        None
    }
}


/// A section carries a link exactly when it is drawn as a link: blue, in
/// the semi-bold italic font.
pub open spec fn marks_links(s: SectionView) -> bool {
    (s.link is Some) == (s.color == SectionColor::Blue && s.font == FontKind::SemiBoldItalic)
}

/// Every section of a sequence marks links.
pub open spec fn all_mark_links(s: Seq<SectionView>) -> bool {
    forall|i: int| 0 <= i < s.len() ==> #[trigger] marks_links(s[i])
}

proof fn lemma_all_mark_links_add(a: Seq<SectionView>, b: Seq<SectionView>)
    requires
        all_mark_links(a),
        all_mark_links(b),
    ensures
        all_mark_links(a + b),
{
    assert forall|i: int| 0 <= i < (a + b).len() implies #[trigger] marks_links((a + b)[i]) by {
        if i < a.len() {
            assert((a + b)[i] == a[i]);
        } else {
            assert((a + b)[i] == b[i - a.len()]);
        }
    }
}

proof fn lemma_styled_children_mark_links(
    children: Seq<MdNode>,
    font: FontKind,
    color: SectionColor,
    link: Option<Seq<char>>,
    err: Seq<char>,
)
    requires
        (link is Some) == (color == SectionColor::Blue && font == FontKind::SemiBoldItalic),
    ensures
        all_mark_links(styled_children(children, font, color, link, err).sections),
    decreases children.len(),
{
    if children.len() > 0 {
        let rest = styled_children(children.drop_last(), font, color, link, err);
        lemma_styled_children_mark_links(children.drop_last(), font, color, link, err);
        match children.last() {
            MdNode::Text { value, .. } => {
                let one_s = seq![SectionView { text: value@, font, color, link }];
                assert(marks_links(one_s[0]));
                lemma_all_mark_links_add(rest.sections, one_s);
            },
            _ => {
                assert(rest.sections + Seq::<SectionView>::empty() =~= rest.sections);
            },
        }
    }
}

proof fn lemma_para_sections_mark_links(children: Seq<MdNode>)
    ensures
        all_mark_links(para_sections(children).sections),
    decreases children.len(),
{
    if children.len() > 0 {
        lemma_para_sections_mark_links(children.drop_last());
        let c = children.last();
        match c {
            MdNode::Strong { children: k, .. } => lemma_styled_children_mark_links(
                k@,
                FontKind::Bold,
                SectionColor::Black,
                None,
                "nesting in bold is not implemented"@,
            ),
            MdNode::Emphasis { children: k, .. } => lemma_styled_children_mark_links(
                k@,
                FontKind::Italic,
                SectionColor::Black,
                None,
                "nesting in italic is not implemented"@,
            ),
            MdNode::Link { url, children: k, .. } => lemma_styled_children_mark_links(
                k@,
                FontKind::SemiBoldItalic,
                SectionColor::Blue,
                Some(url@),
                "nesting in link is not implemented"@,
            ),
            _ => {},
        }
        lemma_all_mark_links_add(
            para_sections(children.drop_last()).sections,
            para_child_sections(c).sections,
        );
    }
}

proof fn lemma_root_sections_mark_links(children: Seq<MdNode>)
    ensures
        all_mark_links(root_sections(children).sections),
    decreases children.len(),
{
    if children.len() > 0 {
        lemma_root_sections_mark_links(children.drop_last());
        let c = children.last();
        match c {
            MdNode::Code { lang, value, .. } => {
                let pieces = highlighted_code(value@, block_lang(lang), CODE_THEME@)->0;
                let mid = pieces.map_values(|p: HighlightView| code_section(p));
                assert(all_mark_links(mid));
                let head = seq![clear(seq!['\n', '\n'])];
                let tail = seq![clear(seq!['\n'])];
                assert(marks_links(head[0]));
                assert(marks_links(tail[0]));
                lemma_all_mark_links_add(head, mid);
                lemma_all_mark_links_add(head + mid, tail);
            },
            MdNode::Paragraph { children: k, .. } => {
                lemma_para_sections_mark_links(k@);
                let head = seq![plain(seq!['\n'])];
                assert(marks_links(head[0]));
                lemma_all_mark_links_add(head, para_sections(k@).sections);
            },
            _ => {},
        }
        lemma_all_mark_links_add(
            root_sections(children.drop_last()).sections,
            root_child_sections(c).sections,
        );
    }
}

/// In a rendered view, a section links somewhere exactly when it is drawn
/// as a link (blue, semi-bold italic): the link markup and its URL are
/// never lost or given to other text.
pub proof fn lemma_sections_mark_links(text: Seq<char>)
    ensures
        sections_of(text) matches Ok(s) ==> all_mark_links(s),
{
    match markdown_syntax_tree(text) {
        Ok(MdNode::Root { children, .. }) => lemma_root_sections_mark_links(children@),
        _ => {},
    }
}

/// The link that the sections of a node in a paragraph carry: the URL of a
/// link node, and none for any other node.
pub open spec fn node_link(node: MdNode) -> Option<Seq<char>> {
    match node {
        MdNode::Link { url, .. } => Some(url@),
        _ => None,
    }
}

proof fn lemma_styled_children_link(
    children: Seq<MdNode>,
    font: FontKind,
    color: SectionColor,
    link: Option<Seq<char>>,
    err: Seq<char>,
)
    ensures
        ({
            let s = styled_children(children, font, color, link, err).sections;
            forall|i: int| 0 <= i < s.len() ==> #[trigger] s[i].link == link
        }),
    decreases children.len(),
{
    if children.len() > 0 {
        lemma_styled_children_link(children.drop_last(), font, color, link, err);
        let rest = styled_children(children.drop_last(), font, color, link, err).sections;
        let all = styled_children(children, font, color, link, err).sections;
        assert forall|i: int| 0 <= i < all.len() implies #[trigger] all[i].link == link by {
            if i < rest.len() {
                assert(all[i] == rest[i]);
            }
        }
    }
}

/// Every section drawn for a node of a paragraph links to that node's URL
/// when the node is a link, and to nothing otherwise: a glyph of the
/// rendered text leads to the link it was written in.
pub proof fn lemma_paragraph_sections_link(node: MdNode)
    ensures
        ({
            let s = para_child_sections(node).sections;
            forall|i: int| 0 <= i < s.len() ==> #[trigger] s[i].link == node_link(node)
        }),
{
    match node {
        MdNode::Strong { children, .. } => lemma_styled_children_link(
            children@,
            FontKind::Bold,
            SectionColor::Black,
            None,
            "nesting in bold is not implemented"@,
        ),
        MdNode::Emphasis { children, .. } => lemma_styled_children_link(
            children@,
            FontKind::Italic,
            SectionColor::Black,
            None,
            "nesting in italic is not implemented"@,
        ),
        MdNode::Link { url, children, .. } => lemma_styled_children_link(
            children@,
            FontKind::SemiBoldItalic,
            SectionColor::Blue,
            Some(url@),
            "nesting in link is not implemented"@,
        ),
        _ => {},
    }
}

} // verus!
