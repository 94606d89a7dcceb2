//! Alpha blending of glyph pixels and rectangles into an RGBA8 pixel buffer.
//!
//! Colors are packed as `0xAARRGGBB` in a `u32`. A pixel is stored in the
//! buffer as four bytes: `[R, G, B, A]` in memory order, read back as
//! `B | G << 8 | R << 16 | A << 24`.

use vstd::prelude::*;

verus! {

/// Mask selecting the red and blue channels of a packed color.
pub const RB_MASK: u32 = 0x00FF00FF;

/// Mask selecting the alpha and green channels of a packed color.
pub const AG_MASK: u32 = 0xFF00FF00;

/// The alpha channel of a packed `0xAARRGGBB` color.
pub open spec fn alpha_of(color: u32) -> u32 {
    (color >> 24u32) & 0xFFu32
}

/// Whether `(x, y)` lies inside a `width` by `height` pixel grid.
pub open spec fn in_grid(width: i32, height: i32, x: i32, y: i32) -> bool {
    0 <= x < width && 0 <= y < height
}

/// Byte offset of the pixel `(x, y)` in a row-major RGBA8 buffer.
pub open spec fn pixel_offset(width: i32, x: i32, y: i32) -> int {
    (y * width + x) * 4
}

/// The packed value of the pixel stored at byte offset `off`.
pub open spec fn read_pixel(buf: Seq<u8>, off: int) -> u32 {
    pack_bytes(buf[off], buf[off + 1], buf[off + 2], buf[off + 3])
}

/// Packs the four stored bytes `[R, G, B, A]` into `0xAARRGGBB`.
pub open spec fn pack_bytes(r: u8, g: u8, b: u8, a: u8) -> u32 {
    b as u32 | (g as u32) << 8u32 | (r as u32) << 16u32 | (a as u32) << 24u32
}

/// The buffer after storing the packed value `v` at byte offset `off`.
pub open spec fn write_pixel(buf: Seq<u8>, off: int, v: u32) -> Seq<u8> {
    buf.update(off + 2, v as u8).update(off + 1, (v >> 8u32) as u8).update(off, (v >> 16u32) as u8).update(
        off + 3,
        (v >> 24u32) as u8,
    )
}

/// Red and blue channels of the blend of `color` over `current`.
pub open spec fn blend_rb(current: u32, color: u32) -> u32 {
    let alpha = alpha_of(color);
    let n_alpha = (255 - alpha) as u32;
    ((n_alpha * (current & RB_MASK) + alpha * (color & RB_MASK)) as u32) >> 8u32
}

/// Alpha and green channels of the blend of `color` over `current`.
pub open spec fn blend_ag(current: u32, color: u32) -> u32 {
    let alpha = alpha_of(color);
    let n_alpha = (255 - alpha) as u32;
    (n_alpha * ((current & AG_MASK) >> 8u32) + alpha * (0x01000000u32 | ((color & 0x0000FF00u32)
        >> 8u32))) as u32
}

/// The pixel value that results from drawing `color` onto a pixel holding
/// `current`: an opaque color, or any color on an empty pixel, replaces it;
/// otherwise the channels are mixed in proportion to the alpha of `color`.
pub open spec fn blend(current: u32, color: u32) -> u32 {
    if alpha_of(color) >= 255 || current == 0 {
        color
    } else {
        (blend_rb(current, color) & RB_MASK) | (blend_ag(current, color) & AG_MASK)
    }
}

/// Whether a call of `draw_pixel` with these arguments stays inside the
/// buffer: a pixel that is drawn must have all four of its bytes in it.
pub open spec fn draw_in_bounds(len: nat, width: i32, height: i32, x: i32, y: i32, color: u32) -> bool {
    alpha_of(color) != 0 && in_grid(width, height, x, y) ==> pixel_offset(width, x, y) + 3 < len
}

proof fn lemma_blend_no_overflow(current: u32, color: u32)
    requires
        0 < alpha_of(color) < 255,
    ensures
        (255 - alpha_of(color)) * (current & RB_MASK) + alpha_of(color) * (color & RB_MASK)
            <= u32::MAX,
        (255 - alpha_of(color)) * ((current & AG_MASK) >> 8u32) + alpha_of(color) * (0x01000000u32
            | ((color & 0x0000FF00u32) >> 8u32)) <= u32::MAX,
{
    let a = alpha_of(color);
    assert(a < 255);
    assert(current & RB_MASK <= 0x00FF00FF) by (bit_vector);
    assert(color & RB_MASK <= 0x00FF00FF) by (bit_vector);
    assert((current & AG_MASK) >> 8u32 <= 0x00FF00FF) by (bit_vector);
    assert(0x01000000u32 | ((color & 0x0000FF00u32) >> 8u32) <= 0x010000FF) by (bit_vector);
    let x = current & RB_MASK;
    let y = color & RB_MASK;
    let z = (current & AG_MASK) >> 8u32;
    let w = 0x01000000u32 | ((color & 0x0000FF00u32) >> 8u32);
    assert((255 - a) * x + a * y <= 255 * 0x00FF00FF) by (nonlinear_arith)
        requires
            0 <= a <= 255,
            x <= 0x00FF00FF,
            y <= 0x00FF00FF,
    ;
    assert((255 - a) * z + a * w <= 0x00FF00FF + 254 * 0x010000FF) by (nonlinear_arith)
        requires
            1 <= a <= 254,
            z <= 0x00FF00FF,
            w <= 0x010000FF,
    {
        assert((255 - a) * z <= (255 - a) * 0x00FF00FF);
        assert(a * w <= a * 0x010000FF);
    }
}

/// Draws one pixel of `color` at `(x, y)` into a `width` by `height` RGBA8
/// buffer. Nothing is drawn for a fully transparent color or outside the grid;
/// otherwise the stored pixel becomes `blend(stored, color)` and no other byte
/// of the buffer changes.
pub fn draw_pixel(buffer: &mut [u8], width: i32, height: i32, x: i32, y: i32, color: u32)
    requires
        draw_in_bounds(old(buffer)@.len(), width, height, x, y, color),
    ensures
        if alpha_of(color) == 0 || !in_grid(width, height, x, y) {
            final(buffer)@ == old(buffer)@
        } else {
            final(buffer)@ == write_pixel(
                old(buffer)@,
                pixel_offset(width, x, y),
                blend(read_pixel(old(buffer)@, pixel_offset(width, x, y)), color),
            )
        },
{
    let alpha: u32 = (color >> 24) & 0xFF;
    if alpha == 0 {
        return;
    }
    if y < 0 || y >= height {
        return;
    }
    if x < 0 || x >= width {
        return;
    }
    let len: usize = buffer.len();
    assert(pixel_offset(width, x, y) + 3 < len);
    let yu: usize = y as usize;
    let wu: usize = width as usize;
    let xu: usize = x as usize;
    assert(yu * wu == y * width);
    assert((yu * wu + xu) * 4 + 3 < len);
    let offset: usize = (yu * wu + xu) * 4;
    let b0: u8 = buffer[offset];
    let b1: u8 = buffer[offset + 1];
    let b2: u8 = buffer[offset + 2];
    let b3: u8 = buffer[offset + 3];
    let mut current: u32 = b2 as u32 | (b1 as u32) << 8 | (b0 as u32) << 16 | (b3 as u32) << 24;
    assert(current == read_pixel(buffer@, offset as int));
    if alpha >= 255 || current == 0 {
        current = color;
    } else {
        proof {
            lemma_blend_no_overflow(current, color);
        }
        let n_alpha: u32 = 255 - alpha;
        let rb: u32 = ((n_alpha * (current & RB_MASK)) + (alpha * (color & RB_MASK))) >> 8;
        let ag: u32 = (n_alpha * ((current & AG_MASK) >> 8)) + (alpha * (0x01000000 | ((color
            & 0x0000FF00) >> 8)));
        current = (rb & RB_MASK) | (ag & AG_MASK);
    }
    buffer[offset + 2] = current as u8;
    buffer[offset + 1] = (current >> 8) as u8;
    buffer[offset] = (current >> 16) as u8;
    buffer[offset + 3] = (current >> 24) as u8;
}

/// Reading a pixel back after storing a packed value gives that value.
pub proof fn lemma_read_after_write(buf: Seq<u8>, off: int, v: u32)
    requires
        0 <= off,
        off + 3 < buf.len(),
    ensures
        read_pixel(write_pixel(buf, off, v), off) == v,
{
    let w = write_pixel(buf, off, v);
    assert(w[off] == (v >> 16u32) as u8);
    assert(w[off + 1] == (v >> 8u32) as u8);
    assert(w[off + 2] == v as u8);
    assert(w[off + 3] == (v >> 24u32) as u8);
    assert(pack_bytes((v >> 16u32) as u8, (v >> 8u32) as u8, v as u8, (v >> 24u32) as u8) == v)
        by (bit_vector);
}

/// Storing a pixel changes its own four bytes and no other byte.
pub proof fn lemma_write_keeps_other_bytes(buf: Seq<u8>, off: int, v: u32, i: int)
    requires
        0 <= off,
        off + 3 < buf.len(),
        0 <= i < buf.len(),
        i < off || off + 3 < i,
    ensures
        write_pixel(buf, off, v).len() == buf.len(),
        write_pixel(buf, off, v)[i] == buf[i],
{
}

/// Drawing a fully opaque color replaces whatever the pixel held: reading the
/// pixel afterwards gives exactly that color.
pub proof fn lemma_opaque_draw_reads_back(buf: Seq<u8>, off: int, color: u32)
    requires
        alpha_of(color) == 255,
        0 <= off,
        off + 3 < buf.len(),
    ensures
        read_pixel(write_pixel(buf, off, blend(read_pixel(buf, off), color)), off) == color,
{
    lemma_read_after_write(buf, off, color);
}

/// Drawing on an empty (all-zero) pixel stores the drawn color as it is,
/// whatever its alpha.
pub proof fn lemma_draw_on_empty_pixel(buf: Seq<u8>, off: int, color: u32)
    requires
        0 <= off,
        off + 3 < buf.len(),
        read_pixel(buf, off) == 0,
    ensures
        read_pixel(write_pixel(buf, off, blend(read_pixel(buf, off), color)), off) == color,
{
    lemma_read_after_write(buf, off, color);
}


/// Byte offset of pixel `(px, py)` in a row-major RGBA8 buffer `width`
/// pixels wide.
pub open spec fn offset_at(width: int, px: int, py: int) -> int {
    (py * width + px) * 4
}

/// Whether `(px, py)` lies in the `w` by `h` rectangle whose top-left
/// pixel is `(x, y)`.
pub open spec fn in_rect(x: int, y: int, w: int, h: int, px: int, py: int) -> bool {
    x <= px < x + w && y <= py < y + h
}

/// `after` is `before` with `color` drawn on every pixel of the grid that
/// lies in the rectangle (nothing when `color` is fully transparent), and
/// every other pixel as it was.
pub open spec fn rect_drawn(
    before: Seq<u8>,
    after: Seq<u8>,
    width: int,
    height: int,
    x: int,
    y: int,
    w: int,
    h: int,
    color: u32,
) -> bool {
    &&& after.len() == before.len()
    &&& forall|px: int, py: int|
        0 <= px < width && 0 <= py < height ==> #[trigger] read_pixel(after, offset_at(width, px, py))
            == if alpha_of(color) != 0 && in_rect(x, y, w, h, px, py) {
            blend(read_pixel(before, offset_at(width, px, py)), color)
        } else {
            read_pixel(before, offset_at(width, px, py))
        }
}

/// Whether the coordinates `base + i` and `base + i + offset` stay within
/// `i32` for every `i` below `n`.
pub open spec fn span_fits(base: i32, offset: i32, n: i32) -> bool {
    n > 0 ==> {
        &&& base + n - 1 <= i32::MAX
        &&& base + offset >= i32::MIN
        &&& base + offset + n - 1 <= i32::MAX
        &&& base + offset <= i32::MAX
    }
}

proof fn lemma_pixel_index_injective(width: int, x1: int, y1: int, x2: int, y2: int)
    requires
        0 <= x1 < width,
        0 <= x2 < width,
        0 <= y1,
        0 <= y2,
        (x1 != x2 || y1 != y2),
    ensures
        y1 * width + x1 != y2 * width + x2,
{
    if y1 < y2 {
        assert(y1 * width + width <= y2 * width) by (nonlinear_arith)
            requires
                y1 < y2,
                0 < width,
        ;
    } else if y2 < y1 {
        assert(y2 * width + width <= y1 * width) by (nonlinear_arith)
            requires
                y2 < y1,
                0 < width,
        ;
    }
}

proof fn lemma_pixel_in_buffer(width: int, height: int, px: int, py: int)
    requires
        0 <= px < width,
        0 <= py < height,
    ensures
        0 <= offset_at(width, px, py),
        offset_at(width, px, py) + 3 < width * height * 4,
{
    assert(0 <= py * width) by (nonlinear_arith)
        requires
            0 <= py,
            0 <= width,
    ;
    assert(py * width + width <= height * width) by (nonlinear_arith)
        requires
            py < height,
            0 <= width,
    ;
    assert(height * width == width * height) by (nonlinear_arith);
}

/// Writing one pixel leaves every other pixel of the grid as it was.
proof fn lemma_write_keeps_other_pixels(
    buf: Seq<u8>,
    width: int,
    height: int,
    qx: int,
    qy: int,
    v: u32,
    px: int,
    py: int,
)
    requires
        buf.len() == width * height * 4,
        0 <= qx < width,
        0 <= qy < height,
        0 <= px < width,
        0 <= py < height,
        px != qx || py != qy,
    ensures
        read_pixel(write_pixel(buf, offset_at(width, qx, qy), v), offset_at(width, px, py))
            == read_pixel(buf, offset_at(width, px, py)),
{
    lemma_pixel_index_injective(width, px, py, qx, qy);
    lemma_pixel_in_buffer(width, height, px, py);
    lemma_pixel_in_buffer(width, height, qx, qy);
    let p = offset_at(width, px, py);
    let q = offset_at(width, qx, qy);
    assert(p + 3 < q || q + 3 < p);
    let w = write_pixel(buf, q, v);
    assert(w[p] == buf[p]);
    assert(w[p + 1] == buf[p + 1]);
    assert(w[p + 2] == buf[p + 2]);
    assert(w[p + 3] == buf[p + 3]);
}

/// Draws `color` over the `w` by `h` rectangle whose top-left pixel is
/// `(x + offset_x, y + offset_y)`, row by row, into a `width` by `height`
/// RGBA8 buffer (see `rect_drawn`); pixels outside the grid are skipped.
pub fn draw_rect(
    buffer: &mut [u8],
    width: i32,
    height: i32,
    x: i32,
    y: i32,
    w: i32,
    h: i32,
    offset_x: i32,
    offset_y: i32,
    color: u32,
)
    requires
        width >= 0,
        height >= 0,
        old(buffer)@.len() == width * height * 4,
        span_fits(x, offset_x, w),
        span_fits(y, offset_y, h),
    ensures
        rect_drawn(
            old(buffer)@,
            final(buffer)@,
            width as int,
            height as int,
            x + offset_x,
            y + offset_y,
            w as int,
            h as int,
            color,
        ),
{
    let ghost start = buffer@;
    let ghost rx: int = x + offset_x;
    let ghost ry: int = y + offset_y;
    let mut row: i32 = 0;
    while row < h
        invariant
            0 <= row,
            h > 0 ==> row <= h,
            h <= 0 ==> row == 0,
            width >= 0,
            height >= 0,
            span_fits(x, offset_x, w),
            span_fits(y, offset_y, h),
            rx == x + offset_x,
            ry == y + offset_y,
            buffer@.len() == start.len(),
            start.len() == width * height * 4,
            rect_drawn(start, buffer@, width as int, height as int, rx, ry, w as int, row as int, color),
        decreases h - row,
    {
        let mut col: i32 = 0;
        let ghost row_start = buffer@;
        while col < w
            invariant
                0 <= row < h,
                0 <= col,
                w > 0 ==> col <= w,
                w <= 0 ==> col == 0,
                width >= 0,
                height >= 0,
                span_fits(x, offset_x, w),
                span_fits(y, offset_y, h),
                rx == x + offset_x,
                ry == y + offset_y,
                buffer@.len() == start.len(),
                start.len() == width * height * 4,
                rect_drawn(start, row_start, width as int, height as int, rx, ry, w as int, row as int, color),
                forall|px: int, py: int|
                    0 <= px < width && 0 <= py < height ==> #[trigger] read_pixel(buffer@, offset_at(width as int, px, py))
                        == if alpha_of(color) != 0 && py == ry + row && rx <= px < rx + col {
                        blend(read_pixel(row_start, offset_at(width as int, px, py)), color)
                    } else {
                        read_pixel(row_start, offset_at(width as int, px, py))
                    },
            decreases w - col,
        {
            let px = x + col + offset_x;
            let py = y + row + offset_y;
            let ghost before = buffer@;
            proof {
                if alpha_of(color) != 0 && in_grid(width, height, px, py) {
                    lemma_pixel_in_buffer(width as int, height as int, px as int, py as int);
                    assert(pixel_offset(width, px, py) == offset_at(width as int, px as int, py as int));
                }
            }
            draw_pixel(buffer, width, height, px, py, color);
            proof {
                assert forall|qx: int, qy: int|
                    0 <= qx < width && 0 <= qy < height implies #[trigger] read_pixel(buffer@, offset_at(width as int, qx, qy))
                        == if alpha_of(color) != 0 && qy == ry + row && rx <= qx < rx + col + 1 {
                        blend(read_pixel(row_start, offset_at(width as int, qx, qy)), color)
                    } else {
                        read_pixel(row_start, offset_at(width as int, qx, qy))
                    } by {
                    if alpha_of(color) != 0 && in_grid(width, height, px, py) {
                        let o = offset_at(width as int, px as int, py as int);
                        assert(pixel_offset(width, px, py) == o);
                        if qx == px && qy == py {
                            lemma_pixel_in_buffer(width as int, height as int, qx, qy);
                            lemma_read_after_write(before, o, blend(read_pixel(before, o), color));
                        } else {
                            lemma_write_keeps_other_pixels(
                                before,
                                width as int,
                                height as int,
                                px as int,
                                py as int,
                                blend(read_pixel(before, o), color),
                                qx,
                                qy,
                            );
                        }
                    }
                }
            }
            col = col + 1;
        }
        proof {
            assert forall|qx: int, qy: int|
                0 <= qx < width && 0 <= qy < height implies #[trigger] read_pixel(buffer@, offset_at(width as int, qx, qy))
                    == if alpha_of(color) != 0 && in_rect(rx, ry, w as int, row + 1, qx, qy) {
                    blend(read_pixel(start, offset_at(width as int, qx, qy)), color)
                } else {
                    read_pixel(start, offset_at(width as int, qx, qy))
                } by {
                assert(read_pixel(row_start, offset_at(width as int, qx, qy)) == if alpha_of(color) != 0 && in_rect(rx, ry, w as int, row as int, qx, qy) {
                    blend(read_pixel(start, offset_at(width as int, qx, qy)), color)
                } else {
                    read_pixel(start, offset_at(width as int, qx, qy))
                });
                if w > 0 {
                    assert(col == w);
                }
                if qy == ry + row {
                    assert(!in_rect(rx, ry, w as int, row as int, qx, qy));
                    assert(in_rect(rx, ry, w as int, row + 1, qx, qy) == (rx <= qx < rx + col));
                } else {
                    assert(in_rect(rx, ry, w as int, row + 1, qx, qy) == in_rect(rx, ry, w as int, row as int, qx, qy));
                }
            }
        }
        row = row + 1;
    }
    proof {
        if h > 0 {
            assert(row == h);
        } else {
            assert forall|qx: int, qy: int| !in_rect(rx, ry, w as int, h as int, qx, qy) && !in_rect(rx, ry, w as int, row as int, qx, qy) by {}
        }
    }
}

} // verus!
