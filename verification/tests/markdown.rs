use velo::md::lines::{buffer_lines, try_generate_markdown_lines, BevyMarkdownLines, LineAttrs};
use velo::md::sections::{try_markdown_sections, FontKind, SectionColor};
use velo::md::style::{
    get_bullet_for_indentation_level, get_header_font_size, rgb, BevyMarkdown,
    BevyMarkdownError, BevyMarkdownTheme, FontSlant, InlineStyleType, TextSpan, TextSpanMetadata,
    WEIGHT_BOLD,
};

fn render(input: &str) -> Result<BevyMarkdownLines, Vec<BevyMarkdownError>> {
    let markdown_theme = BevyMarkdownTheme {
        code_theme: "Solarized (light)".to_string(),
        code_default_lang: "rs".to_string(),
        link: rgb(10, 10, 10),
        inline_code: rgb(100, 100, 100),
    };
    try_generate_markdown_lines(BevyMarkdown {
        markdown_theme,
        text: input.to_string(),
    })
    .expect("the text renders without overflow")
}

fn texts(lines: &BevyMarkdownLines) -> Vec<Vec<String>> {
    lines
        .lines
        .iter()
        .map(|line| line.iter().map(|(t, _)| t.clone()).collect())
        .collect()
}

fn joined(lines: &BevyMarkdownLines) -> Vec<String> {
    texts(lines).into_iter().map(|l| l.concat()).collect()
}

#[test]
fn test_render_text_complicated() {
    let input = "**bold1** normal text
**Italic* and then italic again*
[Inner links **can be styled*too***](https://google.com)
    ";
    let lines = render(input).unwrap();
    assert_eq!(lines.lines.len(), 3);
    assert_eq!(texts(&lines)[0], vec!["bold1".to_string(), " normal text".to_string()]);
    assert_eq!(lines.lines[0][0].1.weight, Some(WEIGHT_BOLD));
    assert!(joined(&lines)[2].starts_with("Inner links "));
}

#[test]
fn test_render_text_with_header() {
    let input = "# Header 1
## Header 2
### Header 3
#### Some header 4 *as well* italicised
##### another header [*redirecting to google*](https://google.com)
";
    let lines = render(input).unwrap();
    let j = joined(&lines);
    assert_eq!(
        j,
        vec![
            "",
            "Header 1",
            "",
            "Header 2",
            "",
            "Header 3",
            "",
            "Some header 4 as well italicised",
            "",
            "another header redirecting to google",
            ""
        ]
    );
    for piece in &lines.lines[1] {
        assert_eq!(piece.1.weight, Some(WEIGHT_BOLD));
    }
    let fourth = &lines.lines[7];
    assert_eq!(fourth[1].0, "as well");
    assert_eq!(fourth[1].1.style, Some(FontSlant::Italic));
    assert_eq!(fourth[1].1.weight, Some(WEIGHT_BOLD));
    let link_piece = &lines.lines[9][1];
    assert_eq!(link_piece.1.color, Some(rgb(10, 10, 10)));
    let meta = &lines.span_metadata[link_piece.1.metadata];
    assert_eq!(meta.link.as_deref(), Some("https://google.com"));
}

#[test]
fn test_render_text_style() {
    let input = "**bold1**  
__bold2__
*italic1*
_italic2_
Hello world
[link](https://example.com)
    ";
    let lines = render(input).unwrap();
    assert_eq!(
        joined(&lines),
        vec!["bold1", "bold2", "italic1", "italic2", "Hello world", "link"]
    );
    assert_eq!(lines.lines[0][0].1.weight, Some(WEIGHT_BOLD));
    assert_eq!(lines.lines[1][0].1.weight, Some(WEIGHT_BOLD));
    assert_eq!(lines.lines[2][0].1.style, Some(FontSlant::Italic));
    assert_eq!(lines.lines[3][0].1.style, Some(FontSlant::Italic));
    assert_eq!(lines.lines[4][0].1.weight, None);
    let link = &lines.lines[5][0];
    assert_eq!(link.1.color, Some(rgb(10, 10, 10)));
    assert_eq!(
        lines.span_metadata[link.1.metadata].link.as_deref(),
        Some("https://example.com")
    );
}

#[test]
fn test_render_code() {
    let input = "My rust code:

```rs
fn main() {
    println!(\"Hello world\");
}
```
    "
    .to_string();
    let lines = render(&input).unwrap();
    assert_eq!(
        joined(&lines),
        vec![
            "My rust code:",
            "",
            "fn main() {",
            "    println!(\"Hello world\");",
            "}",
            ""
        ]
    );
    for line in &lines.lines[2..5] {
        for piece in line {
            assert!(piece.1.color.is_some());
            assert!(piece.1.weight.is_some());
        }
    }
}

#[test]
fn test_render_break() {
    let input = "Hello world  
hello world
    "
    .to_string();
    let lines = render(&input).unwrap();
    assert_eq!(
        texts(&lines),
        vec![vec!["Hello world".to_string()], vec!["hello world".to_string()]]
    );
    assert_eq!(lines.span_metadata.len(), 3);
}

#[test]
fn test_render_break_after_link() {
    let input = "(link)[https://example.com]   

hello world
    "
    .to_string();
    let lines = render(&input).unwrap();
    assert_eq!(joined(&lines), vec!["(link)[https://example.com]hello world"]);
}

#[test]
fn test_render_unordered_list() {
    let input = "
- Import a HTML file and watch it magically convert to Markdown
- Drag and drop images (requires your Dropbox account be linked)
- Import and save files from GitHub, Dropbox, Google Drive and One Drive
- Drag and drop markdown and HTML files into Dillinger
- Export documents as Markdown, HTML and PDF
"
    .to_string();
    let lines = render(&input).unwrap();
    assert_eq!(
        joined(&lines),
        vec![
            "",
            " • Import a HTML file and watch it magically convert to Markdown",
            " • Drag and drop images (requires your Dropbox account be linked)",
            " • Import and save files from GitHub, Dropbox, Google Drive and One Drive",
            " • Drag and drop markdown and HTML files into Dillinger",
            " • Export documents as Markdown, HTML and PDF",
            ""
        ]
    );
}

#[test]
fn test_render_ordered_list() {
    let input = "
1. Import a HTML file and watch it magically convert to Markdown
2. Drag and drop images (requires your Dropbox account be linked)
3. Import and save files from GitHub, Dropbox, Google Drive and One Drive
"
    .to_string();
    let lines = render(&input).unwrap();
    assert_eq!(
        joined(&lines),
        vec![
            "",
            " 1. Import a HTML file and watch it magically convert to Markdown",
            " 2. Drag and drop images (requires your Dropbox account be linked)",
            " 3. Import and save files from GitHub, Dropbox, Google Drive and One Drive",
            ""
        ]
    );
}

#[test]
fn test_render_nested_unordered_list() {
    let input = "
- Import a HTML file and watch it magically convert to Markdown
    - Drag and drop images (requires your Dropbox account be linked)
- Import and save files from GitHub, Dropbox, Google Drive and One Drive
    - Drag and drop markdown and HTML files into Dillinger
- Export documents as Markdown, HTML and PDF
"
    .to_string();
    let lines = render(&input).unwrap();
    assert_eq!(
        joined(&lines),
        vec![
            "",
            " • Import a HTML file and watch it magically convert to Markdown",
            "     ◦ Drag and drop images (requires your Dropbox account be linked)",
            "",
            " • Import and save files from GitHub, Dropbox, Google Drive and One Drive",
            "     ◦ Drag and drop markdown and HTML files into Dillinger",
            "",
            " • Export documents as Markdown, HTML and PDF",
            ""
        ]
    );
}

#[test]
fn test_render_nested_ordered_list() {
    let input = "
1. Import a HTML file and watch it magically convert to Markdown
2. Drag and drop images (requires your Dropbox account be linked)
    1. Import and save files from GitHub, Dropbox, Google Drive and One Drive
    2. Drag and drop images (requires your Dropbox account be linked)
3. Drag and drop images (requires your Dropbox account be linked)
"
    .to_string();
    let lines = render(&input).unwrap();
    assert_eq!(
        joined(&lines),
        vec![
            "",
            " 1. Import a HTML file and watch it magically convert to Markdown",
            " 2. Drag and drop images (requires your Dropbox account be linked)",
            "     1. Import and save files from GitHub, Dropbox, Google Drive and One Drive",
            "     2. Drag and drop images (requires your Dropbox account be linked)",
            "",
            " 3. Drag and drop images (requires your Dropbox account be linked)",
            ""
        ]
    );
}

#[test]
fn unsupported_block_is_a_transform_error() {
    let result = render("> a quote\n");
    match result {
        Err(errors) => {
            assert_eq!(errors.len(), 1);
            assert!(matches!(errors[0], BevyMarkdownError::Transform { .. }));
        }
        Ok(_) => panic!("a block quote is not rendered"),
    }
}

#[test]
fn inline_code_takes_the_inline_code_color() {
    let lines = render("use `code` here").unwrap();
    let piece = &lines.lines[0][1];
    assert_eq!(piece.0, "code");
    assert_eq!(piece.1.color, Some(rgb(100, 100, 100)));
}

#[test]
fn bullets_cycle_with_depth() {
    assert_eq!(get_bullet_for_indentation_level(0), " • ");
    assert_eq!(get_bullet_for_indentation_level(1), " ◦ ");
    assert_eq!(get_bullet_for_indentation_level(2), " ▪ ");
    assert_eq!(get_bullet_for_indentation_level(3), " • ");
}

#[test]
fn header_sizes_shrink_with_depth() {
    assert_eq!(get_header_font_size(1), 30);
    assert_eq!(get_header_font_size(2), 27);
    assert_eq!(get_header_font_size(5), 18);
    assert_eq!(get_header_font_size(6), 15);
}

#[test]
fn style_codes_round_trip() {
    for code in 0u8..4 {
        assert_eq!(InlineStyleType::from_u8(code).code(), code);
    }
    assert_eq!(InlineStyleType::from_u8(3), InlineStyleType::StrongEmphasis);
    assert_eq!(InlineStyleType::from_u8(9), InlineStyleType::Plain);
}

#[test]
fn rgb_packs_an_opaque_color() {
    assert_eq!(rgb(0x11, 0x22, 0x33), 0xFF112233);
}

fn section_triples(input: &str) -> Vec<(String, FontKind, SectionColor, Option<String>)> {
    try_markdown_sections(input)
        .expect("known code languages")
        .expect("renders")
        .into_iter()
        .map(|s| (s.text, s.font, s.color, s.link))
        .collect()
}

#[test]
fn node_view_sections_carry_fonts_colors_and_links() {
    let got = section_triples("Hello **bold** *it* [link](https://x.example)");
    assert_eq!(
        got,
        vec![
            ("\n".to_string(), FontKind::Regular, SectionColor::Black, None),
            ("Hello ".to_string(), FontKind::Regular, SectionColor::Black, None),
            ("bold".to_string(), FontKind::Bold, SectionColor::Black, None),
            (" ".to_string(), FontKind::Regular, SectionColor::Black, None),
            ("it".to_string(), FontKind::Italic, SectionColor::Black, None),
            (" ".to_string(), FontKind::Regular, SectionColor::Black, None),
            (
                "link".to_string(),
                FontKind::SemiBoldItalic,
                SectionColor::Blue,
                Some("https://x.example".to_string())
            ),
        ]
    );
}

#[test]
fn node_view_code_is_framed_by_clear_breaks() {
    let got = section_triples("```rs\nfn main() {}\n```\n");
    assert_eq!(got.first().unwrap().0, "\n\n");
    assert_eq!(got.first().unwrap().2, SectionColor::Clear);
    assert_eq!(got.last().unwrap().0, "\n");
    assert_eq!(got.last().unwrap().2, SectionColor::Clear);
    let code: String = got[1..got.len() - 1].iter().map(|s| s.0.clone()).collect();
    assert_eq!(code, "fn main() {}");
    for s in &got[1..got.len() - 1] {
        assert!(matches!(s.2, SectionColor::Rgba(..)));
    }
}

#[test]
fn node_view_reports_unsupported_nesting() {
    let result = try_markdown_sections("[**x**](https://x.example)").unwrap();
    match result {
        Err(errors) => match &errors[0] {
            BevyMarkdownError::Transform { info } => {
                assert_eq!(info, "nesting in link is not implemented")
            }
            other => panic!("unexpected error {:?}", other),
        },
        Ok(_) => panic!("nested markup in a link is not rendered"),
    }
    let headed = try_markdown_sections("# Title").unwrap();
    match headed {
        Err(errors) => match &errors[0] {
            BevyMarkdownError::Transform { info } => {
                assert!(info.ends_with(" node is not implemented for root"))
            }
            other => panic!("unexpected error {:?}", other),
        },
        Ok(_) => panic!("headings are not rendered in the node view"),
    }
}

#[test]
fn node_view_refuses_unknown_code_languages() {
    assert!(try_markdown_sections("```nosuchlanguage\nx\n```\n").is_none());
}

fn section_texts(input: &str) -> Vec<String> {
    section_triples(input).into_iter().map(|s| s.0).collect()
}

#[test]
fn lib_test_render_text_style() {
    let input = "**bold1**  
__bold2__
*italic1*
_italic2_
Hello world
[link](https://example.com)
    ";
    let got = section_triples(input);
    let texts: Vec<String> = got.iter().map(|s| s.0.clone()).collect();
    assert_eq!(
        texts,
        vec!["\n", "bold1", "\n", "bold2", "\n", "italic1", "\n", "italic2", "\nHello world\n", "link"]
    );
    assert_eq!(got[1].1, FontKind::Bold);
    assert_eq!(got[5].1, FontKind::Italic);
    assert_eq!(got[9].1, FontKind::SemiBoldItalic);
    assert_eq!(got[9].2, SectionColor::Blue);
    assert_eq!(got[9].3.as_deref(), Some("https://example.com"));
    assert!(got[..9].iter().all(|s| s.3.is_none()));
}

#[test]
fn lib_test_render_code() {
    let input = "My rust code:

```rs
fn main() {
    println!(\"Hello world\");
}
```
    "
    .to_string();
    assert_eq!(
        section_texts(&input).concat(),
        "\nMy rust code:\n\nfn main() {\n    println!(\"Hello world\");\n}\n"
    );
}

#[test]
fn lib_test_render_break() {
    let input = "Hello world  
hello world
    "
    .to_string();
    assert_eq!(section_texts(&input), vec!["\n", "Hello world", "\n", "hello world"]);
}

#[test]
fn lib_test_render_break_after_link() {
    let input = "(link)[https://example.com]]   

hello world
    "
    .to_string();
    let got = section_triples(&input);
    let joined: String = got.iter().map(|s| s.0.clone()).collect();
    assert_eq!(joined, "\n(link)[https://example.com]]\nhello world");
    let links: Vec<&String> = got.iter().filter_map(|s| s.3.as_ref()).collect();
    assert_eq!(links.len(), 1);
    assert!(links[0].starts_with("https://example.com"));
}

#[test]
fn default_span_is_empty_and_unstyled() {
    let span = TextSpan::default();
    assert_eq!(span.text, "");
    assert_eq!(span.font_size, None);
    assert_eq!(span.weigth, None);
    assert_eq!(span.style, None);
    assert_eq!(span.color, None);
    assert!(span.metadata.is_none());
    assert_eq!(TextSpanMetadata::default().link, None);
}

#[test]
fn each_link_section_carries_its_own_url() {
    let got = section_triples("[a](https://a.example) and [b](https://b.example)");
    let links: Vec<(String, Option<String>)> = got.into_iter().map(|s| (s.0, s.3)).collect();
    assert_eq!(
        links,
        vec![
            ("\n".to_string(), None),
            ("a".to_string(), Some("https://a.example".to_string())),
            (" and ".to_string(), None),
            ("b".to_string(), Some("https://b.example".to_string())),
        ]
    );
}

#[test]
fn node_view_quotes_the_parsers_description_of_unsupported_nodes() {
    let result = try_markdown_sections("a `x` b").unwrap();
    match result {
        Err(errors) => match &errors[0] {
            BevyMarkdownError::Transform { info } => {
                assert!(info.starts_with("InlineCode { value: \"x\", position: Some("), "{}", info);
                assert!(info.ends_with(" node is not implemented for paragraph"));
            }
            other => panic!("unexpected error {:?}", other),
        },
        Ok(_) => panic!("inline code is not rendered in the node view"),
    }
    let struck = try_markdown_sections("~~gone~~").unwrap();
    match struck {
        Err(errors) => match &errors[0] {
            BevyMarkdownError::Transform { info } => {
                assert!(info.starts_with("Delete { children: ["), "{}", info)
            }
            other => panic!("unexpected error {:?}", other),
        },
        Ok(_) => panic!("struck text is not rendered in the node view"),
    }
}

#[test]
fn buffer_has_one_line_per_rendered_line_with_byte_ranges() {
    let a = LineAttrs { color: Some(1), style: None, weight: None, metadata: 0 };
    let b = LineAttrs { color: None, style: Some(FontSlant::Italic), weight: Some(700), metadata: 1 };
    let lines = BevyMarkdownLines {
        lines: vec![
            vec![("é".to_string(), a), ("ab".to_string(), b)],
            vec![],
            vec![("z".to_string(), b)],
        ],
        span_metadata: vec![],
    };
    let buffer = buffer_lines(&lines);
    assert_eq!(buffer.len(), 3);
    assert_eq!(buffer[0].text, "éab");
    assert_eq!(buffer[0].spans, vec![(0, 2, a), (2, 4, b)]);
    assert_eq!(buffer[1].text, "");
    assert!(buffer[1].spans.is_empty());
    assert_eq!(buffer[2].text, "z");
    assert_eq!(buffer[2].spans, vec![(0, 1, b)]);
}

#[test]
fn buffer_of_a_rendering_keeps_its_lines_in_order() {
    let lines = render("Hello **bold** and *it*\n\n- one\n- two\n").unwrap();
    let buffer = buffer_lines(&lines);
    assert_eq!(buffer.len(), lines.lines.len());
    for (line, b) in lines.lines.iter().zip(buffer.iter()) {
        let text: String = line.iter().map(|p| p.0.clone()).collect();
        assert_eq!(b.text, text);
        let mut at = 0;
        for ((piece, attrs), (start, end, got)) in line.iter().zip(b.spans.iter()) {
            assert_eq!((*start, *end), (at, at + piece.len()));
            assert_eq!(got, attrs);
            at += piece.len();
        }
        assert_eq!(b.spans.len(), line.len());
    }
}
