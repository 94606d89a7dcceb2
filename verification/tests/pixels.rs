use velo::pixel::{draw_pixel, draw_rect};
use velo::text::{get_cosmic_text, line_layout, push_decimal};

#[test]
fn opaque_pixel_replaces_the_stored_one() {
    let mut buf = vec![0u8; 16];
    draw_pixel(&mut buf, 2, 2, 1, 0, 0xFF112233);
    assert_eq!(&buf[4..8], &[0x11, 0x22, 0x33, 0xFF]);
    assert!(buf[..4].iter().all(|b| *b == 0));
    assert!(buf[8..].iter().all(|b| *b == 0));
}

#[test]
fn transparent_or_outside_pixels_change_nothing() {
    let mut buf = vec![7u8; 16];
    draw_pixel(&mut buf, 2, 2, 0, 0, 0x00FFFFFF);
    draw_pixel(&mut buf, 2, 2, 2, 0, 0xFFFFFFFF);
    draw_pixel(&mut buf, 2, 2, 0, -1, 0xFFFFFFFF);
    assert_eq!(buf, vec![7u8; 16]);
}

#[test]
fn translucent_pixel_blends() {
    let mut buf = vec![0x10, 0x20, 0x30, 0xFF];
    draw_pixel(&mut buf, 1, 1, 0, 0, 0x80FFFFFF);
    assert_eq!(buf, vec![135, 143, 151, 254]);
}

#[test]
fn translucent_pixel_on_empty_pixel_is_copied() {
    let mut buf = vec![0u8; 4];
    draw_pixel(&mut buf, 1, 1, 0, 0, 0x80102030);
    assert_eq!(buf, vec![0x10, 0x20, 0x30, 0x80]);
}

#[test]
fn editor_text_joins_lines() {
    let lines = vec!["one".to_string(), "two".to_string(), "".to_string()];
    assert_eq!(get_cosmic_text(&lines), "one\ntwo\n");
    assert_eq!(get_cosmic_text(&vec![]), "");
}

#[test]
fn decimals_are_written_without_leading_zeros() {
    let mut s = "n=".to_string();
    push_decimal(&mut s, 0);
    push_decimal(&mut s, 907);
    assert_eq!(s, "n=0907");
}

#[test]
fn line_layout_counts_bytes() {
    let (line, ranges) = line_layout(&vec!["ab".to_string(), "é".to_string(), "c".to_string()]);
    assert_eq!(line, "abéc");
    assert_eq!(ranges, vec![(0, 2), (2, 4), (4, 5)]);
}

#[test]
fn rectangles_are_drawn_inside_the_grid_only() {
    let mut buf = vec![0u8; 3 * 3 * 4];
    draw_rect(&mut buf, 3, 3, 1, 0, 2, 2, 0, 1, 0xFF0A0B0C);
    for py in 0..3usize {
        for px in 0..3usize {
            let o = (py * 3 + px) * 4;
            let inside = px >= 1 && py >= 1;
            let expected: [u8; 4] = if inside { [0x0A, 0x0B, 0x0C, 0xFF] } else { [0, 0, 0, 0] };
            assert_eq!(&buf[o..o + 4], &expected, "pixel ({px}, {py})");
        }
    }
    let mut edge = vec![0u8; 2 * 2 * 4];
    draw_rect(&mut edge, 2, 2, 1, 1, 5, 5, 0, 0, 0xFF010203);
    assert_eq!(&edge[12..16], &[1, 2, 3, 0xFF]);
    assert!(edge[..12].iter().all(|b| *b == 0));
    let mut none = vec![9u8; 16];
    draw_rect(&mut none, 2, 2, 0, 0, 2, 2, 0, 0, 0x00FFFFFF);
    assert_eq!(none, vec![9u8; 16]);
}
