//! Styling vocabulary of rendered markdown: inline style flags, bullets,
//! header sizes, spans and their metadata.

use vstd::prelude::*;

verus! {

/// Weight of bold text (CSS weight 700).
pub const WEIGHT_BOLD: u16 = 700;

/// Weight of semi-bold text (CSS weight 600).
pub const WEIGHT_SEMIBOLD: u16 = 600;

/// Slant of a font face.
#[derive(Clone, Copy, Debug, PartialEq, Eq, Structural)]
pub enum FontSlant {
    Normal,
    Italic,
    Oblique,
}

/// A color packed as `0xAARRGGBB`, opaque when built by [`rgb`].
pub open spec fn spec_rgba(r: u8, g: u8, b: u8, a: u8) -> u32 {
    ((a as u32) << 24u32) | ((r as u32) << 16u32) | ((g as u32) << 8u32) | (b as u32)
}

/// The opaque color with the given red, green and blue channels.
pub fn rgb(r: u8, g: u8, b: u8) -> (c: u32)
    ensures
        c == spec_rgba(r, g, b, 0xFF),
{
    ((0xFFu32) << 24) | ((r as u32) << 16) | ((g as u32) << 8) | (b as u32)
}

/// Inline emphasis applied to a piece of text. Its code is a bit set: strong
/// is bit 0, emphasis is bit 1.
#[derive(Clone, Copy, Debug, PartialEq, Eq, Structural)]
pub enum InlineStyleType {
    Strong,
    Emphasis,
    StrongEmphasis,
    Plain,
}

impl InlineStyleType {
    /// The style that a style code stands for.
    pub open spec fn spec_from_u8(style_code: u8) -> InlineStyleType {
        if style_code == 1 {
            InlineStyleType::Strong
        } else if style_code == 2 {
            InlineStyleType::Emphasis
        } else if style_code == 3 {
            InlineStyleType::StrongEmphasis
        } else {
            InlineStyleType::Plain
        }
    }

    /// The style code of this style.
    pub open spec fn spec_code(self) -> u8 {
        match self {
            InlineStyleType::Strong => 1,
            InlineStyleType::Emphasis => 2,
            InlineStyleType::StrongEmphasis => 3,
            InlineStyleType::Plain => 0,
        }
    }

    /// Decodes a style code: 1 is strong, 2 emphasis, 3 both, anything else
    /// no style.
    pub fn from_u8(style_code: u8) -> (r: InlineStyleType)
        ensures
            r == Self::spec_from_u8(style_code),
    {
        if style_code == 0x01 {
            InlineStyleType::Strong
        } else if style_code == 0x02 {
            InlineStyleType::Emphasis
        } else if style_code == 0x03 {
            InlineStyleType::StrongEmphasis
        } else {
            InlineStyleType::Plain
        }
    }

    /// The style code of this style.
    pub fn code(&self) -> (c: u8)
        ensures
            c == self.spec_code(),
    {
        match self {
            InlineStyleType::Strong => 0x01,
            InlineStyleType::Emphasis => 0x02,
            InlineStyleType::StrongEmphasis => 0x03,
            InlineStyleType::Plain => 0x00,
        }
    }
}

/// Encoding a style and decoding the code gives the style back.
pub proof fn lemma_style_code_round_trip(style: InlineStyleType)
    ensures
        InlineStyleType::spec_from_u8(style.spec_code()) == style,
{
}

/// Combining style codes by bitwise or: strong over emphasis (in either
/// order) is strong emphasis, and repeating a flag changes nothing.
pub proof fn lemma_style_flags_combine()
    ensures
        InlineStyleType::spec_from_u8(0u8 | 1u8) == InlineStyleType::Strong,
        InlineStyleType::spec_from_u8(0u8 | 2u8) == InlineStyleType::Emphasis,
        InlineStyleType::spec_from_u8((1u8 | 2u8)) == InlineStyleType::StrongEmphasis,
        InlineStyleType::spec_from_u8((2u8 | 1u8)) == InlineStyleType::StrongEmphasis,
        InlineStyleType::spec_from_u8((1u8 | 1u8)) == InlineStyleType::Strong,
        InlineStyleType::spec_from_u8((2u8 | 2u8)) == InlineStyleType::Emphasis,
        InlineStyleType::spec_from_u8((3u8 | 1u8)) == InlineStyleType::StrongEmphasis,
        InlineStyleType::spec_from_u8((3u8 | 2u8)) == InlineStyleType::StrongEmphasis,
{
    assert(0u8 | 1u8 == 1u8) by (bit_vector);
    assert(0u8 | 2u8 == 2u8) by (bit_vector);
    assert(1u8 | 2u8 == 3u8) by (bit_vector);
    assert(2u8 | 1u8 == 3u8) by (bit_vector);
    assert(1u8 | 1u8 == 1u8) by (bit_vector);
    assert(2u8 | 2u8 == 2u8) by (bit_vector);
    assert(3u8 | 1u8 == 3u8) by (bit_vector);
    assert(3u8 | 2u8 == 3u8) by (bit_vector);
}

/// The bullet of an unordered list item at an indentation level: the three
/// bullet shapes take turns as lists nest.
pub open spec fn bullet_for(level: u8) -> Seq<char> {
    if level % 3 == 0 {
        " • "@
    } else if level % 3 == 1 {
        " ◦ "@
    } else {
        " ▪ "@
    }
}

/// The bullet of an unordered list item at an indentation level.
pub fn get_bullet_for_indentation_level(level: u8) -> (r: &'static str)
    ensures
        r@ == bullet_for(level),
{
    let level = level % 3;
    if level == 0 {
        " • "
    } else if level == 1 {
        " ◦ "
    } else {
        " ▪ "
    }
}

/// Font size in points of a header of the given depth: 30 for depth 1,
/// three points less for each level down to 18 at depth 5, and 15 for depth 6
/// and any other depth.
pub open spec fn header_font_size(depth: u8) -> u32 {
    if 1 <= depth <= 5 {
        (33 - 3 * depth) as u32
    } else {
        15
    }
}

/// Font size in points of a header of the given depth.
pub fn get_header_font_size(val: u8) -> (size: u32)
    ensures
        size == header_font_size(val),
{
    if val == 1 {
        30
    } else if val == 2 {
        27
    } else if val == 3 {
        24
    } else if val == 4 {
        21
    } else if val == 5 {
        18
    } else if val == 6 {
        15
    } else {
        15
    }
}

/// A default value of `T`, as `T::default()` gives it.
pub fn default<T: Default>() -> (r: T)
    ensures
        call_ensures(T::default, (), r),
{
    T::default()
}

/// Metadata of a rendered span: the link target where the span is part of a
/// link.
#[derive(Debug)]
pub struct TextSpanMetadata {
    pub link: Option<String>,
}

impl View for TextSpanMetadata {
    type V = Option<Seq<char>>;

    open spec fn view(&self) -> Option<Seq<char>> {
        match self.link {
            Some(l) => Some(l@),
            None => None,
        }
    }
}

/// Copies a string.
pub fn copy_string(s: &String) -> (r: String)
    ensures
        r@ == s@,
{
    s.clone()
}

/// Copies an optional string.
pub fn copy_opt_string(s: &Option<String>) -> (r: Option<String>)
    ensures
        r is Some <==> s is Some,
        r is Some ==> r->0@ == s->0@,
{
    match s {
        Some(t) => Some(t.clone()),
        None => None,
    }
}

impl TextSpanMetadata {
    /// A copy of this metadata.
    pub fn duplicate(&self) -> (r: TextSpanMetadata)
        ensures
            r@ == self@,
    {
        TextSpanMetadata { link: copy_opt_string(&self.link) }
    }
}

/// A piece of rendered markdown text and how it is styled. Fields left
/// `None` keep the style of the surrounding text.
#[derive(Debug)]
pub struct TextSpan {
    pub text: String,
    pub font_size: Option<u32>,
    pub weigth: Option<u16>,
    pub style: Option<FontSlant>,
    pub color: Option<u32>,
    pub metadata: Option<TextSpanMetadata>,
}

/// The abstract value of a [`TextSpan`]: its text as characters and its
/// metadata as an optional link target (`Some(None)` for metadata without a
/// link).
pub struct SpanView {
    pub text: Seq<char>,
    pub font_size: Option<u32>,
    pub weigth: Option<u16>,
    pub style: Option<FontSlant>,
    pub color: Option<u32>,
    pub metadata: Option<Option<Seq<char>>>,
}

impl View for TextSpan {
    type V = SpanView;

    open spec fn view(&self) -> SpanView {
        SpanView {
            text: self.text@,
            font_size: self.font_size,
            weigth: self.weigth,
            style: self.style,
            color: self.color,
            metadata: match self.metadata {
                Some(m) => Some(m@),
                None => None,
            },
        }
    }
}

impl Default for TextSpanMetadata {
    /// Metadata without a link.
    fn default() -> (m: TextSpanMetadata)
        ensures
            m@ == None::<Seq<char>>,
    {
        TextSpanMetadata { link: None }
    }
}

impl Default for TextSpan {
    /// An empty span that keeps the surrounding style and has no metadata.
    fn default() -> (s: TextSpan)
        ensures
            s@ == plain_span(Seq::empty()),
    {
        TextSpan {
            text: String::new(),
            font_size: None,
            weigth: None,
            style: None,
            color: None,
            metadata: None,
        }
    }
}

/// A span of unstyled text.
pub open spec fn plain_span(text: Seq<char>) -> SpanView {
    SpanView { text, font_size: None, weigth: None, style: None, color: None, metadata: None }
}

/// A span of unstyled text with no metadata.
pub fn text_span(text: &str) -> (s: TextSpan)
    ensures
        s@ == plain_span(text@),
{
    TextSpan {
        text: String::from_str(text),
        font_size: None,
        weigth: None,
        style: None,
        color: None,
        metadata: None,
    }
}

/// Colors of rendered markdown and the theme and default language of code
/// highlighting.
pub struct BevyMarkdownTheme {
    pub code_theme: String,
    pub code_default_lang: String,
    pub link: u32,
    pub inline_code: u32,
}

/// Markdown text to render with a theme.
pub struct BevyMarkdown {
    pub markdown_theme: BevyMarkdownTheme,
    pub text: String,
}

/// A failure to render markdown: a node kind that the renderer does not
/// handle where it stands, or text that does not parse.
#[derive(Debug)]
pub enum BevyMarkdownError {
    Transform { info: String },
    Parsing { info: String },
}

/// The abstract value of a [`BevyMarkdownError`].
pub enum ErrorView {
    Transform(Seq<char>),
    Parsing(Seq<char>),
}

impl View for BevyMarkdownError {
    type V = ErrorView;

    open spec fn view(&self) -> ErrorView {
        match self {
            BevyMarkdownError::Transform { info } => ErrorView::Transform(info@),
            BevyMarkdownError::Parsing { info } => ErrorView::Parsing(info@),
        }
    }
}

/// The abstract values of a sequence of spans.
pub open spec fn spans_view(spans: Seq<TextSpan>) -> Seq<SpanView> {
    spans.map_values(|s: TextSpan| s@)
}

/// The abstract values of a sequence of errors.
pub open spec fn errors_view(errors: Seq<BevyMarkdownError>) -> Seq<ErrorView> {
    errors.map_values(|e: BevyMarkdownError| e@)
}

} // verus!
