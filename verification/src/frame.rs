//! Drawing into an RGBA frame: a `width` by `height` grid of pixels, four
//! bytes each (red, green, blue, alpha), row after row.
use vstd::prelude::*;
use crate::paint::Color;
use crate::text::chars_of;

verus! {

/// A frame whose byte offsets fit in `u32`.
pub open spec fn frame_fits(width: u32, height: u32) -> bool {
    width * height * 4 <= u32::MAX
}

/// Whether a frame of this size has byte offsets that fit in `u32`.
pub fn frame_fits_at(width: u32, height: u32) -> (r: bool)
    ensures
        r == frame_fits(width, height),
{
    let w = width as u64;
    let h = height as u64;
    proof {
        assert(w * h <= 0xffff_ffff * 0xffff_ffff) by (nonlinear_arith)
            requires
                w <= 0xffff_ffff,
                h <= 0xffff_ffff,
        ;
    }
    let area = w * h;
    if area > 0x4000_0000 {
        false
    } else {
        area * 4 <= 0xffff_ffff
    }
}

/// The offset of channel `ch` of pixel (`px`, `py`).
pub open spec fn byte_at(width: u32, px: int, py: int, ch: int) -> int {
    (py * width + px) * 4 + ch
}

/// Channel `ch` of a color: red, green, blue, then alpha.
pub open spec fn channel(c: Color, ch: int) -> u8 {
    if ch == 0 {
        c.r
    } else if ch == 1 {
        c.g
    } else if ch == 2 {
        c.b
    } else {
        c.a
    }
}

/// Byte `k` belongs to pixel (`px`, `py`), whose four bytes lie in the
/// frame.
pub open spec fn in_pixel(width: u32, px: int, py: int, len: int, k: int) -> bool {
    &&& byte_at(width, px, py, 0) + 4 <= len
    &&& byte_at(width, px, py, 0) <= k < byte_at(width, px, py, 0) + 4
}

/// Byte `k` belongs to a pixel of `region`.
pub open spec fn touched(width: u32, region: spec_fn(int, int) -> bool, len: int, k: int) -> bool {
    exists|px: int, py: int|
        #![trigger region(px, py), in_pixel(width, px, py, len, k)]
        region(px, py) && 0 <= px < width && 0 <= py && in_pixel(width, px, py, len, k)
}

/// `new` is `old` with each byte of a pixel of `region` (within the
/// frame's columns) replaced by `f` of the pixel, its channel and the old
/// byte, and every other byte as it was.
pub open spec fn mapped_in(
    old: Seq<u8>,
    new: Seq<u8>,
    width: u32,
    region: spec_fn(int, int) -> bool,
    f: spec_fn(int, int, int, u8) -> u8,
) -> bool {
    &&& new.len() == old.len()
    &&& forall|px: int, py: int, ch: int|
        region(px, py) && 0 <= px < width && 0 <= py && 0 <= ch < 4 && byte_at(width, px, py, 0) + 4
            <= new.len() ==> #[trigger] new[byte_at(width, px, py, ch)] == f(
            px,
            py,
            ch,
            old[byte_at(width, px, py, ch)],
        )
    &&& forall|k: int| 0 <= k < new.len() && !touched(width, region, new.len() as int, k) ==> #[trigger] new[k] == old[k]
}

/// Painting in color `c`.
pub open spec fn paint_fn(c: Color) -> spec_fn(int, int, int, u8) -> u8 {
    |px: int, py: int, ch: int, b: u8| channel(c, ch)
}

/// `new` is `old` with every pixel of `region` (within the frame's columns)
/// painted `c`, and every other byte as it was.
pub open spec fn painted_in(old: Seq<u8>, new: Seq<u8>, width: u32, region: spec_fn(int, int) -> bool, c: Color) -> bool {
    mapped_in(old, new, width, region, paint_fn(c))
}

/// The pixels `x0 <= px < x1`, `y0 <= py < y1`.
pub open spec fn rect_region(x0: int, y0: int, x1: int, y1: int) -> spec_fn(int, int) -> bool {
    |px: int, py: int| x0 <= px < x1 && y0 <= py < y1
}

/// Each side of a frame that fits holds at most 2^30 pixels.
proof fn lemma_frame_sides(width: u32, height: u32)
    requires
        frame_fits(width, height),
    ensures
        height >= 1 ==> width <= 0x4000_0000,
        width >= 1 ==> height <= 0x4000_0000,
{
    assert(height >= 1 ==> width * height >= width) by (nonlinear_arith);
    assert(width >= 1 ==> width * height >= height) by (nonlinear_arith);
}

proof fn lemma_linear_index_unique(w: int, x: int, y: int, x2: int, y2: int)
    by (nonlinear_arith)
    requires
        0 <= x < w,
        0 <= x2 < w,
        0 <= y,
        0 <= y2,
        y * w + x == y2 * w + x2,
    ensures
        x == x2,
        y == y2,
{
    if y < y2 {
        assert(y2 * w >= (y + 1) * w);
    } else if y2 < y {
        assert(y * w >= (y2 + 1) * w);
    }
}

/// Distinct pixels of the frame's columns share no byte.
proof fn lemma_pixels_disjoint(width: u32, px: int, py: int, qx: int, qy: int, len: int, k: int)
    requires
        0 <= px < width,
        0 <= qx < width,
        0 <= py,
        0 <= qy,
        in_pixel(width, px, py, len, k),
        in_pixel(width, qx, qy, len, k),
    ensures
        px == qx,
        py == qy,
{
    let a = py * width + px;
    let b = qy * width + qx;
    assert(a * 4 <= k < a * 4 + 4);
    assert(b * 4 <= k < b * 4 + 4);
    assert(a == b);
    lemma_linear_index_unique(width as int, px, py, qx, qy);
}

/// Changing two regions that share no pixel, one after the other, changes
/// their union.
proof fn lemma_mapped_union(
    o: Seq<u8>,
    m: Seq<u8>,
    n: Seq<u8>,
    width: u32,
    r1: spec_fn(int, int) -> bool,
    r2: spec_fn(int, int) -> bool,
    r: spec_fn(int, int) -> bool,
    f: spec_fn(int, int, int, u8) -> u8,
)
    requires
        mapped_in(o, m, width, r1, f),
        mapped_in(m, n, width, r2, f),
        forall|px: int, py: int| #[trigger] r(px, py) == (r1(px, py) || r2(px, py)),
        forall|px: int, py: int| !(#[trigger] r1(px, py) && r2(px, py)),
    ensures
        mapped_in(o, n, width, r, f),
{
    let len = n.len() as int;
    assert forall|px: int, py: int, ch: int|
        r(px, py) && 0 <= px < width && 0 <= py && 0 <= ch < 4 && byte_at(width, px, py, 0) + 4
            <= n.len() implies #[trigger] n[byte_at(width, px, py, ch)] == f(
        px,
        py,
        ch,
        o[byte_at(width, px, py, ch)],
    ) by {
        let k = byte_at(width, px, py, ch);
        assert(in_pixel(width, px, py, len, k));
        if r2(px, py) {
            if touched(width, r1, len, k) {
                let (qx, qy) = choose|qx: int, qy: int|
                    #![trigger r1(qx, qy), in_pixel(width, qx, qy, len, k)]
                    r1(qx, qy) && 0 <= qx < width && 0 <= qy && in_pixel(width, qx, qy, len, k);
                lemma_pixels_disjoint(width, px, py, qx, qy, len, k);
            }
            assert(m[k] == o[k]);
        } else {
            assert(r1(px, py));
            if touched(width, r2, len, k) {
                let (qx, qy) = choose|qx: int, qy: int|
                    #![trigger r2(qx, qy), in_pixel(width, qx, qy, len, k)]
                    r2(qx, qy) && 0 <= qx < width && 0 <= qy && in_pixel(width, qx, qy, len, k);
                lemma_pixels_disjoint(width, px, py, qx, qy, len, k);
            }
            assert(n[k] == m[k]);
        }
    }
    assert forall|k: int| 0 <= k < n.len() && !touched(width, r, len, k) implies #[trigger] n[k] == o[k] by {
        if touched(width, r2, len, k) {
            let (qx, qy) = choose|qx: int, qy: int|
                #![trigger r2(qx, qy), in_pixel(width, qx, qy, len, k)]
                r2(qx, qy) && 0 <= qx < width && 0 <= qy && in_pixel(width, qx, qy, len, k);
            assert(r(qx, qy));
        }
        if touched(width, r1, len as int, k) {
            let (qx, qy) = choose|qx: int, qy: int|
                #![trigger r1(qx, qy), in_pixel(width, qx, qy, len, k)]
                r1(qx, qy) && 0 <= qx < width && 0 <= qy && in_pixel(width, qx, qy, len, k);
            assert(r(qx, qy));
        }
    }
}

proof fn lemma_mapped_nothing(o: Seq<u8>, width: u32, r: spec_fn(int, int) -> bool, f: spec_fn(int, int, int, u8) -> u8)
    requires
        forall|px: int, py: int|
            #[trigger] r(px, py) && 0 <= px < width && 0 <= py ==> byte_at(width, px, py, 0) + 4 > o.len(),
    ensures
        mapped_in(o, o, width, r, f),
{
    assert forall|k: int| 0 <= k < o.len() && !touched(width, r, o.len() as int, k) implies #[trigger] o[k] == o[k] by {}
}

/// The frame after painting pixel (`x`, `y`) `c`: its four bytes change
/// when the pixel lies in the frame (and its bytes in the buffer).
pub open spec fn pixel_set(f: Seq<u8>, width: u32, height: u32, x: int, y: int, c: Color) -> Seq<u8> {
    let i = byte_at(width, x, y, 0);
    if 0 <= x < width && 0 <= y < height && i + 4 <= f.len() {
        f.update(i, c.r).update(i + 1, c.g).update(i + 2, c.b).update(i + 3, c.a)
    } else {
        f
    }
}

proof fn lemma_pixel_set_painted(f: Seq<u8>, width: u32, height: u32, x: int, y: int, c: Color)
    requires
        0 <= x < width,
        0 <= y < height,
    ensures
        painted_in(f, pixel_set(f, width, height, x, y, c), width, rect_region(x, y, x + 1, y + 1), c),
{
    let n = pixel_set(f, width, height, x, y, c);
    let r = rect_region(x, y, x + 1, y + 1);
    let len = f.len() as int;
    assert forall|k: int| 0 <= k < n.len() && !touched(width, r, len, k) implies #[trigger] n[k] == f[k] by {
        if byte_at(width, x, y, 0) + 4 <= len && byte_at(width, x, y, 0) <= k < byte_at(width, x, y, 0) + 4 {
            assert(r(x, y));
            assert(in_pixel(width, x, y, len, k));
        }
    }
}

fn pixel_offset(width: u32, height: u32, x: u32, y: u32) -> (r: usize)
    requires
        frame_fits(width, height),
        x < width,
        y < height,
    ensures
        r == byte_at(width, x as int, y as int, 0),
        r + 4 <= u32::MAX,
{
    proof {
        assert((y as int) * (width as int) + (x as int) + 1 <= (width as int) * (height as int)) by (nonlinear_arith)
            requires
                x < width,
                y < height,
        ;
    }
    ((y * width + x) * 4) as usize
}

/// Paints pixel (`x`, `y`) `c`; a pixel outside the frame is left alone.
pub fn set_pixel(frame: &mut [u8], width: u32, height: u32, x: i32, y: i32, color: Color)
    requires
        frame_fits(width, height),
    ensures
        final(frame)@ == pixel_set(old(frame)@, width, height, x as int, y as int, color),
{
    if x < 0 || y < 0 {
        return;
    }
    let x = x as u32;
    let y = y as u32;
    if x >= width || y >= height {
        return;
    }
    let index = pixel_offset(width, height, x, y);
    if index + 4 <= frame.len() {
        frame[index] = color.r;
        frame[index + 1] = color.g;
        frame[index + 2] = color.b;
        frame[index + 3] = color.a;
    }
}

/// Paints the pixels `x0 <= px < x1` of row `y`.
fn fill_row(frame: &mut [u8], width: u32, height: u32, y: u32, x0: u32, x1: u32, color: Color)
    requires
        frame_fits(width, height),
        x0 <= x1 <= width,
        y < height,
    ensures
        painted_in(old(frame)@, final(frame)@, width, rect_region(x0 as int, y as int, x1 as int, y + 1), color),
{
    let ghost start = frame@;
    proof {
        lemma_mapped_nothing(start, width, rect_region(x0 as int, y as int, x0 as int, y + 1), paint_fn(color));
    }
    proof {
        lemma_frame_sides(width, height);
    }
    let mut px = x0;
    while px < x1
        invariant
            frame_fits(width, height),
            width <= 0x4000_0000,
            width >= 1 ==> height <= 0x4000_0000,
            x0 <= px <= x1 <= width,
            y < height,
            painted_in(start, frame@, width, rect_region(x0 as int, y as int, px as int, y + 1), color),
        decreases x1 - px,
    {
        let ghost before = frame@;
        set_pixel(frame, width, height, px as i32, y as i32, color);
        proof {
            lemma_pixel_set_painted(before, width, height, px as int, y as int, color);
            let r1 = rect_region(x0 as int, y as int, px as int, y + 1);
            let r2 = rect_region(px as int, y as int, px + 1, y + 1);
            let r = rect_region(x0 as int, y as int, px + 1, y + 1);
            assert forall|qx: int, qy: int| #[trigger] r(qx, qy) == (r1(qx, qy) || r2(qx, qy)) by {}
            assert forall|qx: int, qy: int| !(#[trigger] r1(qx, qy) && r2(qx, qy)) by {}
            lemma_mapped_union(start, before, frame@, width, r1, r2, r, paint_fn(color));
        }
        px = px + 1;
    }
}

/// The part of `[start, start + len)` within `[0, limit]`, as `(from, to)`.
pub open spec fn clip_span(start: int, len: int, limit: u32) -> (int, int) {
    let from = if start > 0 {
        start
    } else {
        0
    };
    let end = if start + len > 0 {
        start + len
    } else {
        0
    };
    (from, if end < limit {
        end
    } else {
        limit as int
    })
}

/// Paints the rectangle at (`x`, `y`) of `rect_width` by `rect_height`
/// pixels, cut to the frame.
pub fn draw_rect(
    frame: &mut [u8],
    width: u32,
    height: u32,
    x: i32,
    y: i32,
    rect_width: i32,
    rect_height: i32,
    color: Color,
)
    requires
        frame_fits(width, height),
        i32::MIN <= x + rect_width <= i32::MAX,
        i32::MIN <= y + rect_height <= i32::MAX,
    ensures
        painted_in(
            old(frame)@,
            final(frame)@,
            width,
            rect_region(
                clip_span(x as int, rect_width as int, width).0,
                clip_span(y as int, rect_height as int, height).0,
                clip_span(x as int, rect_width as int, width).1,
                clip_span(y as int, rect_height as int, height).1,
            ),
            color,
        ),
{
    let start_x: u32 = if x > 0 {
        x as u32
    } else {
        0
    };
    let start_y: u32 = if y > 0 {
        y as u32
    } else {
        0
    };
    let right = x + rect_width;
    let bottom = y + rect_height;
    let max_x: u32 = if right > 0 {
        right as u32
    } else {
        0
    };
    let max_y: u32 = if bottom > 0 {
        bottom as u32
    } else {
        0
    };
    let max_x = if max_x < width {
        max_x
    } else {
        width
    };
    let max_y = if max_y < height {
        max_y
    } else {
        height
    };
    let ghost start = frame@;
    let ghost full = rect_region(start_x as int, start_y as int, max_x as int, max_y as int);
    if start_x >= max_x || start_y >= max_y {
        proof {
            lemma_mapped_nothing(start, width, full, paint_fn(color));
        }
        return;
    }
    proof {
        lemma_mapped_nothing(start, width, rect_region(start_x as int, start_y as int, max_x as int, start_y as int), paint_fn(color));
    }
    let mut py = start_y;
    while py < max_y
        invariant
            frame_fits(width, height),
            start_x < max_x <= width,
            start_y <= py <= max_y <= height,
            painted_in(start, frame@, width, rect_region(start_x as int, start_y as int, max_x as int, py as int), color),
        decreases max_y - py,
    {
        let ghost before = frame@;
        fill_row(frame, width, height, py, start_x, max_x, color);
        proof {
            let r1 = rect_region(start_x as int, start_y as int, max_x as int, py as int);
            let r2 = rect_region(start_x as int, py as int, max_x as int, py + 1);
            let r = rect_region(start_x as int, start_y as int, max_x as int, py + 1);
            assert forall|qx: int, qy: int| #[trigger] r(qx, qy) == (r1(qx, qy) || r2(qx, qy)) by {}
            assert forall|qx: int, qy: int| !(#[trigger] r1(qx, qy) && r2(qx, qy)) by {}
            lemma_mapped_union(start, before, frame@, width, r1, r2, r, paint_fn(color));
        }
        py = py + 1;
    }
}

/// Fills every whole pixel of the frame with `color` (a trailing partial
/// pixel is left alone).
pub fn clear_frame(frame: &mut [u8], color: Color)
    ensures
        final(frame)@.len() == old(frame)@.len(),
        forall|k: int|
            0 <= k < final(frame)@.len() ==> #[trigger] final(frame)@[k] == if k < old(frame)@.len() / 4 * 4 {
                channel(color, k % 4)
            } else {
                old(frame)@[k]
            },
{
    let ghost start = frame@;
    let n = frame.len();
    let whole = n / 4 * 4;
    let mut i: usize = 0;
    while i < whole
        invariant
            n == frame@.len(),
            start.len() == n,
            whole == n / 4 * 4,
            i <= whole,
            i % 4 == 0,
            forall|k: int|
                0 <= k < n ==> #[trigger] frame@[k] == if k < i {
                    channel(color, k % 4)
                } else {
                    start[k]
                },
        decreases whole - i,
    {
        frame[i] = color.r;
        frame[i + 1] = color.g;
        frame[i + 2] = color.b;
        frame[i + 3] = color.a;
        i = i + 4;
    }
}

/// The rows that a clip keeps of a rectangle from `y` spanning `h` rows:
/// from the later of `y` and `top` to the earlier of `y + h` and `bottom`.
pub open spec fn clip_rows(y: int, h: int, top: int, bottom: int) -> (int, int) {
    (if y > top {
        y
    } else {
        top
    }, if y + h < bottom {
        y + h
    } else {
        bottom
    })
}

/// Paints a rectangle cut to the rows from `clip_top` to `clip_bottom` and
/// to the frame.
pub fn draw_rect_clipped(
    frame: &mut [u8],
    width: u32,
    height: u32,
    x: i32,
    y: i32,
    rect_width: i32,
    rect_height: i32,
    color: Color,
    clip_top: i32,
    clip_bottom: i32,
)
    requires
        frame_fits(width, height),
        i32::MIN <= x + rect_width <= i32::MAX,
        i32::MIN <= y + rect_height <= i32::MAX,
    ensures
        ({
            let (from, to) = clip_rows(y as int, rect_height as int, clip_top as int, clip_bottom as int);
            if to <= from {
                final(frame)@ == old(frame)@
            } else {
                painted_in(
                    old(frame)@,
                    final(frame)@,
                    width,
                    rect_region(
                        clip_span(x as int, rect_width as int, width).0,
                        clip_span(from, to - from, height).0,
                        clip_span(x as int, rect_width as int, width).1,
                        clip_span(from, to - from, height).1,
                    ),
                    color,
                )
            }
        }),
{
    let clipped_y = if y > clip_top {
        y
    } else {
        clip_top
    };
    let bottom = y + rect_height;
    let clipped_bottom = if bottom < clip_bottom {
        bottom
    } else {
        clip_bottom
    };
    if clipped_bottom <= clipped_y {
        return;
    }
    draw_rect(frame, width, height, x, clipped_y, rect_width, clipped_bottom - clipped_y, color);
}

/// One channel blended toward `c` by `coverage` out of 255, rounded to the
/// nearest value.
pub open spec fn blend(p: u8, c: u8, coverage: u8) -> u8 {
    ((p * (255 - coverage) + c * coverage + 127) / 255) as u8
}

/// Blending toward `c` by the coverage of each pixel; the alpha channel
/// becomes opaque.
pub open spec fn blend_fn(c: Color, coverage: spec_fn(int, int) -> u8) -> spec_fn(int, int, int, u8) -> u8 {
    |px: int, py: int, ch: int, b: u8|
        if ch < 3 {
            blend(b, channel(c, ch), coverage(px, py))
        } else {
            255u8
        }
}

fn blend_channel(p: u8, c: u8, coverage: u8) -> (r: u8)
    ensures
        r == blend(p, c, coverage),
{
    proof {
        assert(p * (255 - coverage) + c * coverage <= 255 * 255) by (nonlinear_arith);
        assert(p * (255 - coverage) >= 0 && c * coverage >= 0) by (nonlinear_arith);
    }
    let v: u32 = (p as u32 * (255 - coverage as u32) + c as u32 * coverage as u32 + 127) / 255;
    v as u8
}

/// Blends pixel (`x`, `y`) toward `color` by `coverage` out of 255 (the
/// weighted mean of the two colors, rounded; opaque). A pixel outside the
/// frame is left alone.
pub fn blend_pixel(frame: &mut [u8], width: u32, height: u32, x: i32, y: i32, color: Color, coverage: u8)
    requires
        frame_fits(width, height),
    ensures
        0 <= x < width && 0 <= y < height ==> mapped_in(
            old(frame)@,
            final(frame)@,
            width,
            rect_region(x as int, y as int, x + 1, y + 1),
            blend_fn(color, |px: int, py: int| coverage),
        ),
        !(0 <= x < width && 0 <= y < height) ==> final(frame)@ == old(frame)@,
{
    if x < 0 || y < 0 {
        return;
    }
    let ux = x as u32;
    let uy = y as u32;
    if ux >= width || uy >= height {
        return;
    }
    let ghost start = frame@;
    let ghost r = rect_region(x as int, y as int, x + 1, y + 1);
    let ghost f = blend_fn(color, |px: int, py: int| coverage);
    let index = pixel_offset(width, height, ux, uy);
    if index + 4 <= frame.len() {
        let r0 = blend_channel(frame[index], color.r, coverage);
        let g0 = blend_channel(frame[index + 1], color.g, coverage);
        let b0 = blend_channel(frame[index + 2], color.b, coverage);
        frame[index] = r0;
        frame[index + 1] = g0;
        frame[index + 2] = b0;
        frame[index + 3] = 0xff;
        proof {
            let len = start.len() as int;
            assert forall|k: int| 0 <= k < frame@.len() && !touched(width, r, len, k) implies #[trigger] frame@[k] == start[k] by {
                if index <= k < index + 4 {
                    assert(r(x as int, y as int));
                    assert(in_pixel(width, x as int, y as int, len, k));
                }
            }
        }
    } else {
        proof {
            lemma_mapped_nothing(start, width, r, f);
        }
    }
}

/// The part of a glyph that a glyph bitmap puts in the frame: its pixels
/// (the glyph's top-left corner at (`x`, `y`), `glyph_width` by
/// `glyph_height`, coverage row by row in `bitmap`) with nonzero coverage,
/// inside the frame's rows and the clip.
pub open spec fn glyph_region(
    x: int,
    y: int,
    glyph_width: int,
    glyph_height: int,
    bitmap: Seq<u8>,
    height: u32,
    clip_top: Option<i32>,
    clip_bottom: Option<i32>,
) -> spec_fn(int, int) -> bool {
    |px: int, py: int|
        0 <= px - x < glyph_width && 0 <= py - y < glyph_height && bitmap[(py - y) * glyph_width + (px - x)]
            != 0 && py < height && (clip_top matches Some(t) ==> py >= t) && (clip_bottom matches Some(b)
            ==> py < b)
}

/// The coverage of the glyph pixel under frame pixel (`px`, `py`).
pub open spec fn glyph_coverage(x: int, y: int, glyph_width: int, bitmap: Seq<u8>) -> spec_fn(int, int) -> u8 {
    |px: int, py: int| bitmap[(py - y) * glyph_width + (px - x)]
}

/// Blends row `row` of a glyph bitmap into the frame.
fn blend_glyph_row(
    frame: &mut [u8],
    width: u32,
    height: u32,
    x: i32,
    y: i32,
    glyph_width: usize,
    glyph_height: usize,
    row: usize,
    bitmap: &[u8],
    color: Color,
    clip_top: Option<i32>,
    clip_bottom: Option<i32>,
)
    requires
        frame_fits(width, height),
        row < glyph_height,
        glyph_width * glyph_height <= bitmap@.len(),
        glyph_width <= i32::MAX,
        glyph_height <= i32::MAX,
        x + glyph_width <= i32::MAX + 1,
        y + glyph_height <= i32::MAX + 1,
    ensures
        mapped_in(
            old(frame)@,
            final(frame)@,
            width,
            |px: int, py: int|
                glyph_region(x as int, y as int, glyph_width as int, glyph_height as int, bitmap@, height, clip_top, clip_bottom)(px, py)
                    && py - y == row,
            blend_fn(color, glyph_coverage(x as int, y as int, glyph_width as int, bitmap@)),
        ),
{
    let ghost start = frame@;
    let ghost g = glyph_region(x as int, y as int, glyph_width as int, glyph_height as int, bitmap@, height, clip_top, clip_bottom);
    let ghost f = blend_fn(color, glyph_coverage(x as int, y as int, glyph_width as int, bitmap@));
    let bitmap_len = bitmap.len();
    proof {
        assert((row + 1) * glyph_width <= glyph_height * glyph_width) by (nonlinear_arith)
            requires
                row < glyph_height,
        ;
        assert((row + 1) * glyph_width == row * glyph_width + glyph_width) by (nonlinear_arith);
        lemma_mapped_nothing(start, width, |px: int, py: int| g(px, py) && py - y == row && px - x < 0, f);
    }
    let py: i32 = y + row as i32;
    let row_start: usize = row * glyph_width;
    let mut col: usize = 0;
    while col < glyph_width
        invariant
            frame_fits(width, height),
            row < glyph_height,
            glyph_width * glyph_height <= bitmap@.len(),
            row * glyph_width + glyph_width <= bitmap@.len(),
            bitmap_len == bitmap@.len(),
            row_start == row * glyph_width,
            glyph_width <= i32::MAX,
            x + glyph_width <= i32::MAX + 1,
            py == y + row,
            col <= glyph_width,
            g == glyph_region(x as int, y as int, glyph_width as int, glyph_height as int, bitmap@, height, clip_top, clip_bottom),
            f == blend_fn(color, glyph_coverage(x as int, y as int, glyph_width as int, bitmap@)),
            mapped_in(start, frame@, width, |px: int, py: int| g(px, py) && py - y == row && px - x < col, f),
        decreases glyph_width - col,
    {
        let ghost before = frame@;
        let px: i32 = x + col as i32;
        let coverage = bitmap[row_start + col];
        let ghost r1 = |qx: int, qy: int| g(qx, qy) && qy - y == row && qx - x < col;
        let ghost r2 = |qx: int, qy: int| g(qx, qy) && qy - y == row && qx - x == col;
        let ghost r = |qx: int, qy: int| g(qx, qy) && qy - y == row && qx - x < col + 1;
        proof {
            assert(bitmap@[(py - y) * glyph_width + (px - x)] == coverage);
        }
        let clipped = match clip_top {
            Some(t) => py < t,
            None => false,
        } || match clip_bottom {
            Some(b) => py >= b,
            None => false,
        };
        if coverage != 0 && !clipped {
            blend_pixel(frame, width, height, px, py, color, coverage);
            proof {
                if 0 <= px < width && 0 <= py < height {
                    let single = rect_region(px as int, py as int, px + 1, py + 1);
                    let fc = blend_fn(color, |qx: int, qy: int| coverage);
                    assert forall|qx: int, qy: int, ch: int|
                        single(qx, qy) && 0 <= qx < width && 0 <= qy && 0 <= ch < 4 && byte_at(width, qx, qy, 0) + 4
                            <= frame@.len() implies #[trigger] frame@[byte_at(width, qx, qy, ch)] == f(
                        qx,
                        qy,
                        ch,
                        before[byte_at(width, qx, qy, ch)],
                    ) by {
                        assert(frame@[byte_at(width, qx, qy, ch)] == fc(qx, qy, ch, before[byte_at(width, qx, qy, ch)]));
                    }
                    assert forall|k: int| 0 <= k < frame@.len() && !touched(width, r2, frame@.len() as int, k) implies #[trigger] frame@[k] == before[k] by {
                        if touched(width, single, frame@.len() as int, k) {
                            let (qx, qy) = choose|qx: int, qy: int|
                                #![trigger single(qx, qy), in_pixel(width, qx, qy, frame@.len() as int, k)]
                                single(qx, qy) && 0 <= qx < width && 0 <= qy && in_pixel(width, qx, qy, frame@.len() as int, k);
                            assert(r2(qx, qy));
                        }
                    }
                    assert(mapped_in(before, frame@, width, r2, f));
                } else {
                    lemma_mapped_nothing(before, width, r2, f);
                }
            }
        } else {
            proof {
                lemma_mapped_nothing(before, width, r2, f);
            }
        }
        proof {
            assert forall|qx: int, qy: int| #[trigger] r(qx, qy) == (r1(qx, qy) || r2(qx, qy)) by {}
            assert forall|qx: int, qy: int| !(#[trigger] r1(qx, qy) && r2(qx, qy)) by {}
            lemma_mapped_union(start, before, frame@, width, r1, r2, r, f);
        }
        col = col + 1;
    }
    proof {
        let done = |qx: int, qy: int| g(qx, qy) && qy - y == row && qx - x < col;
        let want = |qx: int, qy: int| g(qx, qy) && qy - y == row;
        assert forall|qx: int, qy: int| #[trigger] want(qx, qy) == done(qx, qy) by {}
        assert(want =~= done);
    }
}

/// Blends a glyph's coverage bitmap into the frame at (`x`, `y`), keeping
/// to the rows from `clip_top` and above `clip_bottom` where given.
pub fn draw_glyph_bitmap(
    frame: &mut [u8],
    width: u32,
    height: u32,
    x: i32,
    y: i32,
    glyph_width: usize,
    glyph_height: usize,
    bitmap: &[u8],
    color: Color,
    clip_top: Option<i32>,
    clip_bottom: Option<i32>,
)
    requires
        frame_fits(width, height),
        glyph_width * glyph_height <= bitmap@.len(),
        glyph_width <= i32::MAX,
        glyph_height <= i32::MAX,
        x + glyph_width <= i32::MAX + 1,
        y + glyph_height <= i32::MAX + 1,
    ensures
        mapped_in(
            old(frame)@,
            final(frame)@,
            width,
            glyph_region(x as int, y as int, glyph_width as int, glyph_height as int, bitmap@, height, clip_top, clip_bottom),
            blend_fn(color, glyph_coverage(x as int, y as int, glyph_width as int, bitmap@)),
        ),
{
    let ghost start = frame@;
    let ghost g = glyph_region(x as int, y as int, glyph_width as int, glyph_height as int, bitmap@, height, clip_top, clip_bottom);
    let ghost f = blend_fn(color, glyph_coverage(x as int, y as int, glyph_width as int, bitmap@));
    proof {
        lemma_mapped_nothing(start, width, |px: int, py: int| g(px, py) && py - y < 0, f);
    }
    let mut row: usize = 0;
    while row < glyph_height
        invariant
            frame_fits(width, height),
            glyph_width * glyph_height <= bitmap@.len(),
            glyph_width <= i32::MAX,
            glyph_height <= i32::MAX,
            x + glyph_width <= i32::MAX + 1,
            y + glyph_height <= i32::MAX + 1,
            row <= glyph_height,
            g == glyph_region(x as int, y as int, glyph_width as int, glyph_height as int, bitmap@, height, clip_top, clip_bottom),
            f == blend_fn(color, glyph_coverage(x as int, y as int, glyph_width as int, bitmap@)),
            mapped_in(start, frame@, width, |px: int, py: int| g(px, py) && py - y < row, f),
        decreases glyph_height - row,
    {
        let ghost before = frame@;
        blend_glyph_row(frame, width, height, x, y, glyph_width, glyph_height, row, bitmap, color, clip_top, clip_bottom);
        proof {
            let r1 = |qx: int, qy: int| g(qx, qy) && qy - y < row;
            let r2 = |qx: int, qy: int| g(qx, qy) && qy - y == row;
            let r = |qx: int, qy: int| g(qx, qy) && qy - y < row + 1;
            assert forall|qx: int, qy: int| #[trigger] r(qx, qy) == (r1(qx, qy) || r2(qx, qy)) by {}
            assert forall|qx: int, qy: int| !(#[trigger] r1(qx, qy) && r2(qx, qy)) by {}
            lemma_mapped_union(start, before, frame@, width, r1, r2, r, f);
        }
        row = row + 1;
    }
    proof {
        let done = |qx: int, qy: int| g(qx, qy) && qy - y < row;
        assert forall|qx: int, qy: int| #[trigger] g(qx, qy) == done(qx, qy) by {}
        assert(g =~= done);
    }
}

/// Painting two regions in the same color, one after the other, paints
/// their union, overlapping or not.
proof fn lemma_painted_union(
    o: Seq<u8>,
    m: Seq<u8>,
    n: Seq<u8>,
    width: u32,
    r1: spec_fn(int, int) -> bool,
    r2: spec_fn(int, int) -> bool,
    r: spec_fn(int, int) -> bool,
    c: Color,
)
    requires
        painted_in(o, m, width, r1, c),
        painted_in(m, n, width, r2, c),
        forall|px: int, py: int| #[trigger] r(px, py) == (r1(px, py) || r2(px, py)),
    ensures
        painted_in(o, n, width, r, c),
{
    let len = n.len() as int;
    let f = paint_fn(c);
    assert forall|px: int, py: int, ch: int|
        r(px, py) && 0 <= px < width && 0 <= py && 0 <= ch < 4 && byte_at(width, px, py, 0) + 4
            <= n.len() implies #[trigger] n[byte_at(width, px, py, ch)] == f(
        px,
        py,
        ch,
        o[byte_at(width, px, py, ch)],
    ) by {
        let k = byte_at(width, px, py, ch);
        assert(in_pixel(width, px, py, len, k));
        if !r2(px, py) {
            if touched(width, r2, len, k) {
                let (qx, qy) = choose|qx: int, qy: int|
                    #![trigger r2(qx, qy), in_pixel(width, qx, qy, len, k)]
                    r2(qx, qy) && 0 <= qx < width && 0 <= qy && in_pixel(width, qx, qy, len, k);
                lemma_pixels_disjoint(width, px, py, qx, qy, len, k);
            }
            assert(n[k] == m[k]);
        }
    }
    assert forall|k: int| 0 <= k < n.len() && !touched(width, r, len, k) implies #[trigger] n[k] == o[k] by {
        if touched(width, r2, len, k) {
            let (qx, qy) = choose|qx: int, qy: int|
                #![trigger r2(qx, qy), in_pixel(width, qx, qy, len, k)]
                r2(qx, qy) && 0 <= qx < width && 0 <= qy && in_pixel(width, qx, qy, len, k);
            assert(r(qx, qy));
        }
        if touched(width, r1, len, k) {
            let (qx, qy) = choose|qx: int, qy: int|
                #![trigger r1(qx, qy), in_pixel(width, qx, qy, len, k)]
                r1(qx, qy) && 0 <= qx < width && 0 <= qy && in_pixel(width, qx, qy, len, k);
            assert(r(qx, qy));
        }
    }
}

/// Regions that agree on the frame's pixels are painted alike.
proof fn lemma_painted_same_pixels(o: Seq<u8>, n: Seq<u8>, width: u32, r1: spec_fn(int, int) -> bool, r2: spec_fn(int, int) -> bool, c: Color)
    requires
        painted_in(o, n, width, r1, c),
        forall|px: int, py: int| 0 <= px < width && 0 <= py ==> #[trigger] r1(px, py) == r2(px, py),
    ensures
        painted_in(o, n, width, r2, c),
{
    let len = n.len() as int;
    assert forall|k: int| 0 <= k < n.len() && !touched(width, r2, len, k) implies #[trigger] n[k] == o[k] by {
        if touched(width, r1, len, k) {
            let (qx, qy) = choose|qx: int, qy: int|
                #![trigger r1(qx, qy), in_pixel(width, qx, qy, len, k)]
                r1(qx, qy) && 0 <= qx < width && 0 <= qy && in_pixel(width, qx, qy, len, k);
            assert(r2(qx, qy));
        }
    }
}

/// What `font8x8::BASIC_FONTS` holds for a character below U+0080: eight
/// rows of eight bits, the lowest bit leftmost.
pub uninterp spec fn basic_glyph_of(c: char) -> Seq<u8>;

/// Calls `font8x8::UnicodeFonts::get` on `font8x8::BASIC_FONTS`: the
/// crate's table holds exactly the characters U+0000 to U+007F, so a glyph
/// comes back for those and none for any other character. The glyph's
/// rows are named, not stated.
#[verifier::external_body]
fn basic_glyph(c: char) -> (r: Option<[u8; 8]>)
    ensures
        match r {
            Some(g) => (c as u32) < 128 && g@ == basic_glyph_of(c),
            None => (c as u32) >= 128,
        },
{
    font8x8::UnicodeFonts::get(&font8x8::BASIC_FONTS, c)
}

/// Bit `col` of row `row` of the glyph of `c` is set.
pub open spec fn glyph_bit(c: char, row: int, col: int) -> bool {
    (c as u32) < 128 && (basic_glyph_of(c)[row] >> (col as u8)) & 1u8 == 1u8
}

/// A square of the text's pixels lies within the clip: not wholly above
/// `clip_top`, not at or below `clip_bottom`.
pub open spec fn square_in_clip(top: int, size: int, clip_top: Option<i32>, clip_bottom: Option<i32>) -> bool {
    !(clip_top matches Some(t) && top + size <= t) && !(clip_bottom matches Some(b) && top >= b)
}

/// The pixels that the 8-by-8 font gives `text` at (`x`, `y`), each font
/// pixel a `scale`-sided square, a bold text doubling each square to its
/// right, every character advancing `8 * scale`: the squares of set bits
/// within the clip and the frame's rows.
pub open spec fn bitmap_text_region(
    x: int,
    y: int,
    text: Seq<char>,
    scale: int,
    bold: bool,
    clip_top: Option<i32>,
    clip_bottom: Option<i32>,
    height: u32,
) -> spec_fn(int, int) -> bool {
    |px: int, py: int|
        0 <= py < height && exists|i: int, row: int, col: int, b: int|
            #![trigger glyph_bit(text[i], row, col), square_at(x, y, i, row, col, b, scale, px, py)]
            0 <= i < text.len() && 0 <= row < 8 && 0 <= col < 8 && 0 <= b <= (if bold {
                1int
            } else {
                0
            }) && glyph_bit(text[i], row, col) && square_in_clip(y + row * scale, scale, clip_top, clip_bottom)
                && square_at(x, y, i, row, col, b, scale, px, py)
}

/// Pixel (`px`, `py`) lies in the square of bit (`row`, `col`) of
/// character `i` (moved right by `b` squares).
pub open spec fn square_at(x: int, y: int, i: int, row: int, col: int, b: int, scale: int, px: int, py: int) -> bool {
    let left = x + i * (8 * scale) + col * scale + b * scale;
    let top = y + row * scale;
    left <= px < left + scale && top <= py < top + scale
}

/// Bit (`i`, `row`, `col`) comes before bit (`ci`, `crow`, `ccol`) in
/// drawing order.
pub open spec fn drawn_before(i: int, row: int, col: int, ci: int, crow: int, ccol: int) -> bool {
    i < ci || (i == ci && row < crow) || (i == ci && row == crow && col < ccol)
}

/// The part of `bitmap_text_region` drawn before bit (`ci`, `crow`,
/// `ccol`).
pub open spec fn drawn_so_far(
    x: int,
    y: int,
    text: Seq<char>,
    scale: int,
    bold: bool,
    clip_top: Option<i32>,
    clip_bottom: Option<i32>,
    height: u32,
    ci: int,
    crow: int,
    ccol: int,
) -> spec_fn(int, int) -> bool {
    |px: int, py: int|
        0 <= py < height && exists|i: int, row: int, col: int, b: int|
            #![trigger glyph_bit(text[i], row, col), square_at(x, y, i, row, col, b, scale, px, py)]
            0 <= i < text.len() && 0 <= row < 8 && 0 <= col < 8 && 0 <= b <= (if bold {
                1int
            } else {
                0
            }) && glyph_bit(text[i], row, col) && square_in_clip(y + row * scale, scale, clip_top, clip_bottom)
                && square_at(x, y, i, row, col, b, scale, px, py) && drawn_before(i, row, col, ci, crow, ccol)
}

/// Paints the `size`-sided square at (`left`, `top`).
fn draw_square(frame: &mut [u8], width: u32, height: u32, left: i32, top: i32, size: i32, color: Color)
    requires
        frame_fits(width, height),
        0 <= size,
        left + size <= i32::MAX,
        top + size <= i32::MAX,
    ensures
        painted_in(
            old(frame)@,
            final(frame)@,
            width,
            |px: int, py: int| 0 <= py < height && left <= px < left + size && top <= py < top + size,
            color,
        ),
{
    draw_rect(frame, width, height, left, top, size, size, color);
    proof {
        let r1 = rect_region(
            clip_span(left as int, size as int, width).0,
            clip_span(top as int, size as int, height).0,
            clip_span(left as int, size as int, width).1,
            clip_span(top as int, size as int, height).1,
        );
        let r2 = |px: int, py: int| 0 <= py < height && left <= px < left + size && top <= py < top + size;
        assert forall|px: int, py: int| 0 <= px < width && 0 <= py implies #[trigger] r1(px, py) == r2(px, py) by {}
        lemma_painted_same_pixels(old(frame)@, frame@, width, r1, r2, color);
    }
}

/// One bit's square (and, for bold text, the square to its right) joins
/// the drawn part.
proof fn lemma_bit_drawn(
    o: Seq<u8>,
    m: Seq<u8>,
    n: Seq<u8>,
    width: u32,
    height: u32,
    x: int,
    y: int,
    text: Seq<char>,
    scale: int,
    bold: bool,
    clip_top: Option<i32>,
    clip_bottom: Option<i32>,
    i: int,
    row: int,
    col: int,
    c: Color,
)
    requires
        0 <= i < text.len(),
        0 <= row < 8,
        0 <= col < 8,
        painted_in(o, m, width, drawn_so_far(x, y, text, scale, bold, clip_top, clip_bottom, height, i, row, col), c),
        glyph_bit(text[i], row, col) && square_in_clip(y + row * scale, scale, clip_top, clip_bottom) ==> painted_in(
            m,
            n,
            width,
            |px: int, py: int|
                0 <= py < height && exists|b: int|
                    0 <= b <= (if bold {
                        1int
                    } else {
                        0
                    }) && #[trigger] square_at(x, y, i, row, col, b, scale, px, py),
            c,
        ),
        !(glyph_bit(text[i], row, col) && square_in_clip(y + row * scale, scale, clip_top, clip_bottom)) ==> n == m,
    ensures
        painted_in(o, n, width, drawn_so_far(x, y, text, scale, bold, clip_top, clip_bottom, height, i, row, col + 1), c),
{
    let r1 = drawn_so_far(x, y, text, scale, bold, clip_top, clip_bottom, height, i, row, col);
    let r = drawn_so_far(x, y, text, scale, bold, clip_top, clip_bottom, height, i, row, col + 1);
    let bmax: int = if bold {
        1int
    } else {
        0
    };
    if glyph_bit(text[i], row, col) && square_in_clip(y + row * scale, scale, clip_top, clip_bottom) {
        let r2 = |px: int, py: int|
            0 <= py < height && exists|b: int| 0 <= b <= bmax && #[trigger] square_at(x, y, i, row, col, b, scale, px, py);
        assert forall|px: int, py: int| #[trigger] r(px, py) == (r1(px, py) || r2(px, py)) by {
            if r(px, py) {
                let (wi, wr, wc, wb) = choose|wi: int, wr: int, wc: int, wb: int|
                    #![trigger glyph_bit(text[wi], wr, wc), square_at(x, y, wi, wr, wc, wb, scale, px, py)]
                    0 <= wi < text.len() && 0 <= wr < 8 && 0 <= wc < 8 && 0 <= wb <= bmax && glyph_bit(text[wi], wr, wc)
                        && square_in_clip(y + wr * scale, scale, clip_top, clip_bottom) && square_at(x, y, wi, wr, wc, wb, scale, px, py)
                        && drawn_before(wi, wr, wc, i, row, col + 1);
                if !drawn_before(wi, wr, wc, i, row, col) {
                    assert(wi == i && wr == row && wc == col);
                    assert(square_at(x, y, i, row, col, wb, scale, px, py));
                }
            }
            if r2(px, py) {
                let wb = choose|wb: int| 0 <= wb <= bmax && #[trigger] square_at(x, y, i, row, col, wb, scale, px, py);
                assert(glyph_bit(text[i], row, col));
                assert(drawn_before(i, row, col, i, row, col + 1));
            }
        }
        lemma_painted_union(o, m, n, width, r1, r2, r, c);
    } else {
        assert forall|px: int, py: int| #[trigger] r(px, py) == r1(px, py) by {
            if r(px, py) {
                let (wi, wr, wc, wb) = choose|wi: int, wr: int, wc: int, wb: int|
                    #![trigger glyph_bit(text[wi], wr, wc), square_at(x, y, wi, wr, wc, wb, scale, px, py)]
                    0 <= wi < text.len() && 0 <= wr < 8 && 0 <= wc < 8 && 0 <= wb <= bmax && glyph_bit(text[wi], wr, wc)
                        && square_in_clip(y + wr * scale, scale, clip_top, clip_bottom) && square_at(x, y, wi, wr, wc, wb, scale, px, py)
                        && drawn_before(wi, wr, wc, i, row, col + 1);
                if !drawn_before(wi, wr, wc, i, row, col) {
                    assert(wi == i && wr == row && wc == col);
                }
            }
        }
        assert(r =~= r1);
    }
}

/// The drawn part is the same at the end of a row and the start of the
/// next, and at the end of a character and the start of the next.
proof fn lemma_drawn_same(
    x: int,
    y: int,
    text: Seq<char>,
    scale: int,
    bold: bool,
    clip_top: Option<i32>,
    clip_bottom: Option<i32>,
    height: u32,
    i: int,
    row: int,
    col: int,
    i2: int,
    row2: int,
    col2: int,
)
    requires
        forall|wi: int, wr: int, wc: int|
            0 <= wi < text.len() && 0 <= wr < 8 && 0 <= wc < 8 && glyph_bit(text[wi], wr, wc) ==> (drawn_before(
                wi,
                wr,
                wc,
                i,
                row,
                col,
            ) == drawn_before(wi, wr, wc, i2, row2, col2)),
    ensures
        drawn_so_far(x, y, text, scale, bold, clip_top, clip_bottom, height, i, row, col) == drawn_so_far(
            x,
            y,
            text,
            scale,
            bold,
            clip_top,
            clip_bottom,
            height,
            i2,
            row2,
            col2,
        ),
{
    let a = drawn_so_far(x, y, text, scale, bold, clip_top, clip_bottom, height, i, row, col);
    let b = drawn_so_far(x, y, text, scale, bold, clip_top, clip_bottom, height, i2, row2, col2);
    assert forall|px: int, py: int| #[trigger] a(px, py) == b(px, py) by {
        if a(px, py) {
            let (wi, wr, wc, wb) = choose|wi: int, wr: int, wc: int, wb: int|
                #![trigger glyph_bit(text[wi], wr, wc), square_at(x, y, wi, wr, wc, wb, scale, px, py)]
                0 <= wi < text.len() && 0 <= wr < 8 && 0 <= wc < 8 && 0 <= wb <= (if bold {
                    1int
                } else {
                    0
                }) && glyph_bit(text[wi], wr, wc) && square_in_clip(y + wr * scale, scale, clip_top, clip_bottom)
                    && square_at(x, y, wi, wr, wc, wb, scale, px, py) && drawn_before(wi, wr, wc, i, row, col);
            assert(drawn_before(wi, wr, wc, i2, row2, col2));
        }
        if b(px, py) {
            let (wi, wr, wc, wb) = choose|wi: int, wr: int, wc: int, wb: int|
                #![trigger glyph_bit(text[wi], wr, wc), square_at(x, y, wi, wr, wc, wb, scale, px, py)]
                0 <= wi < text.len() && 0 <= wr < 8 && 0 <= wc < 8 && 0 <= wb <= (if bold {
                    1int
                } else {
                    0
                }) && glyph_bit(text[wi], wr, wc) && square_in_clip(y + wr * scale, scale, clip_top, clip_bottom)
                    && square_at(x, y, wi, wr, wc, wb, scale, px, py) && drawn_before(wi, wr, wc, i2, row2, col2);
            assert(drawn_before(wi, wr, wc, i, row, col));
        }
    }
    assert(a =~= b);
}

/// Draws `text` with the 8-by-8 font at (`x`, `y`): each set bit of a
/// glyph a `scale`-sided square of `color` (doubled to the right for bold
/// text), each character `8 * scale` pixels wide, rows of squares wholly
/// above `clip_top` or at or below `clip_bottom` left out.
pub fn draw_text_bitmap(
    frame: &mut [u8],
    width: u32,
    height: u32,
    x: i32,
    y: i32,
    text: &str,
    color: Color,
    font_weight: crate::style::FontWeight,
    scale: u32,
    clip_top: Option<i32>,
    clip_bottom: Option<i32>,
)
    requires
        frame_fits(width, height),
        8 * scale <= i32::MAX,
        x + (text@.len() + 1) * (8 * scale) <= i32::MAX,
        y + 9 * scale <= i32::MAX,
    ensures
        painted_in(
            old(frame)@,
            final(frame)@,
            width,
            bitmap_text_region(
                x as int,
                y as int,
                text@,
                scale as int,
                font_weight == crate::style::FontWeight::Bold,
                clip_top,
                clip_bottom,
                height,
            ),
            color,
        ),
{
    let ghost start = frame@;
    let ghost t = text@;
    let ghost sc = scale as int;
    let bold = match font_weight {
        crate::style::FontWeight::Bold => true,
        crate::style::FontWeight::Normal => false,
    };
    let chars = chars_of(text);
    let s = scale as i32;
    let step = (crate::paint::CHAR_WIDTH * scale) as i32;
    proof {
        lemma_mapped_nothing(start, width, drawn_so_far(x as int, y as int, t, sc, bold, clip_top, clip_bottom, height, 0, 0, 0), paint_fn(color));
    }
    let mut cursor_x = x;
    let mut i: usize = 0;
    while i < chars.len()
        invariant
            frame_fits(width, height),
            chars@ == t,
            s == sc,
            sc == scale,
            step == 8 * sc,
            8 * scale <= i32::MAX,
            x + (t.len() + 1) * (8 * sc) <= i32::MAX,
            y + 9 * scale <= i32::MAX,
            i <= t.len(),
            cursor_x == x + i * (8 * sc),
            painted_in(start, frame@, width, drawn_so_far(x as int, y as int, t, sc, bold, clip_top, clip_bottom, height, i as int, 0, 0), color),
        decreases t.len() - i,
    {
        proof {
            assert(x + (i + 1) * (8 * sc) <= x + (t.len() + 1) * (8 * sc)) by (nonlinear_arith)
                requires
                    i < t.len(),
                    0 <= sc,
            ;
            assert(cursor_x + 8 * sc == x + (i + 1) * (8 * sc)) by (nonlinear_arith)
                requires
                    cursor_x == x + i * (8 * sc),
            ;
            assert(x + i * (8 * sc) >= x) by (nonlinear_arith)
                requires
                    0 <= i,
                    0 <= sc,
            ;
            assert(x + (i + 2) * (8 * sc) <= x + (t.len() + 1) * (8 * sc)) by (nonlinear_arith)
                requires
                    i < t.len(),
                    0 <= sc,
            ;
            assert(x + (i + 2) * (8 * sc) == cursor_x + 8 * sc + 8 * sc) by (nonlinear_arith)
                requires
                    cursor_x == x + i * (8 * sc),
            ;
        }
        match basic_glyph(chars[i]) {
            Some(glyph) => {
                let mut row: usize = 0;
                while row < 8
                    invariant
                        frame_fits(width, height),
                        chars@ == t,
                        s == sc,
                        sc == scale,
                        8 * scale <= i32::MAX,
                        y + 9 * scale <= i32::MAX,
                        i < t.len(),
                        cursor_x == x + i * (8 * sc),
                        cursor_x >= x,
                        cursor_x + 8 * sc + 8 * sc <= i32::MAX,
                        glyph@ == basic_glyph_of(t[i as int]),
                        (t[i as int] as u32) < 128,
                        row <= 8,
                        painted_in(start, frame@, width, drawn_so_far(x as int, y as int, t, sc, bold, clip_top, clip_bottom, height, i as int, row as int, 0), color),
                    decreases 8 - row,
                {
                    let bits = glyph[row];
                    proof {
                        assert(row * sc <= 7 * sc) by (nonlinear_arith)
                            requires
                                row < 8,
                                0 <= sc,
                        ;
                        assert(row * sc >= 0) by (nonlinear_arith)
                            requires
                                0 <= sc,
                        ;
                    }
                    let py = y + row as i32 * s;
                    let clipped = match clip_top {
                        Some(top) => py + s <= top,
                        None => false,
                    } || match clip_bottom {
                        Some(bottom) => py >= bottom,
                        None => false,
                    };
                    let mut col: i32 = 0;
                    while col < 8
                        invariant
                            frame_fits(width, height),
                            chars@ == t,
                            s == sc,
                            sc == scale,
                            8 * scale <= i32::MAX,
                            i < t.len(),
                            row < 8,
                            cursor_x == x + i * (8 * sc),
                            cursor_x >= x,
                            cursor_x + 8 * sc + 8 * sc <= i32::MAX,
                            py == y + row * sc,
                            py + sc <= i32::MAX,
                            glyph@ == basic_glyph_of(t[i as int]),
                            (t[i as int] as u32) < 128,
                            bits == basic_glyph_of(t[i as int])[row as int],
                            clipped == !square_in_clip(y + row * sc, sc, clip_top, clip_bottom),
                            0 <= col <= 8,
                            painted_in(start, frame@, width, drawn_so_far(x as int, y as int, t, sc, bold, clip_top, clip_bottom, height, i as int, row as int, col as int), color),
                        decreases 8 - col,
                    {
                        let ghost before = frame@;
                        proof {
                            assert(col * sc <= 7 * sc) by (nonlinear_arith)
                                requires
                                    col < 8,
                                    0 <= sc,
                            ;
                            assert(col * sc >= 0) by (nonlinear_arith)
                                requires
                                    0 <= col,
                                    0 <= sc,
                            ;
                        }
                        let set = (bits >> (col as u8)) & 1 == 1;
                        proof {
                            assert(set == glyph_bit(t[i as int], row as int, col as int));
                        }
                        if set && !clipped {
                            let px = cursor_x + col * s;
                            draw_square(frame, width, height, px, py, s, color);
                            let ghost mid = frame@;
                            if bold {
                                draw_square(frame, width, height, px + s, py, s, color);
                            }
                            proof {
                                let bmax: int = if bold {
                                    1int
                                } else {
                                    0
                                };
                                let q0 = |qx: int, qy: int| 0 <= qy < height && px <= qx < px + sc && py <= qy < py + sc;
                                let q1 = |qx: int, qy: int| 0 <= qy < height && px + sc <= qx < px + sc + sc && py <= qy < py + sc;
                                let both = |qx: int, qy: int|
                                    0 <= qy < height && exists|b: int|
                                        0 <= b <= bmax && #[trigger] square_at(x as int, y as int, i as int, row as int, col as int, b, sc, qx, qy);
                                if bold {
                                    let q = |qx: int, qy: int| q0(qx, qy) || q1(qx, qy);
                                    assert forall|qx: int, qy: int| #[trigger] q(qx, qy) == (q0(qx, qy) || q1(qx, qy)) by {}
                                    lemma_painted_union(before, mid, frame@, width, q0, q1, q, color);
                                    assert forall|qx: int, qy: int| 0 <= qx < width && 0 <= qy implies #[trigger] q(qx, qy) == both(qx, qy) by {
                                        if q0(qx, qy) {
                                            assert(square_at(x as int, y as int, i as int, row as int, col as int, 0, sc, qx, qy));
                                        }
                                        if q1(qx, qy) {
                                            assert(square_at(x as int, y as int, i as int, row as int, col as int, 1, sc, qx, qy));
                                        }
                                        if both(qx, qy) {
                                            let b = choose|b: int| 0 <= b <= bmax && #[trigger] square_at(x as int, y as int, i as int, row as int, col as int, b, sc, qx, qy);
                                            assert(b == 0 || b == 1);
                                        }
                                    }
                                    lemma_painted_same_pixels(before, frame@, width, q, both, color);
                                } else {
                                    assert forall|qx: int, qy: int| 0 <= qx < width && 0 <= qy implies #[trigger] q0(qx, qy) == both(qx, qy) by {
                                        if q0(qx, qy) {
                                            assert(square_at(x as int, y as int, i as int, row as int, col as int, 0, sc, qx, qy));
                                        }
                                        if both(qx, qy) {
                                            let b = choose|b: int| 0 <= b <= bmax && #[trigger] square_at(x as int, y as int, i as int, row as int, col as int, b, sc, qx, qy);
                                            assert(b == 0);
                                        }
                                    }
                                    lemma_painted_same_pixels(before, frame@, width, q0, both, color);
                                }
                            }
                        }
                        proof {
                            lemma_bit_drawn(start, before, frame@, width, height, x as int, y as int, t, sc, bold, clip_top, clip_bottom, i as int, row as int, col as int, color);
                        }
                        col = col + 1;
                    }
                    proof {
                        lemma_drawn_same(x as int, y as int, t, sc, bold, clip_top, clip_bottom, height, i as int, row as int, 8, i as int, row + 1, 0);
                    }
                    row = row + 1;
                }
                proof {
                    lemma_drawn_same(x as int, y as int, t, sc, bold, clip_top, clip_bottom, height, i as int, 8, 0, i + 1, 0, 0);
                }
            },
            None => {
                proof {
                    lemma_drawn_same(x as int, y as int, t, sc, bold, clip_top, clip_bottom, height, i as int, 0, 0, i + 1, 0, 0);
                }
            },
        }
        cursor_x = cursor_x + step;
        i = i + 1;
    }
    proof {
        let full = bitmap_text_region(x as int, y as int, t, sc, bold, clip_top, clip_bottom, height);
        let done = drawn_so_far(x as int, y as int, t, sc, bold, clip_top, clip_bottom, height, i as int, 0, 0);
        assert forall|px: int, py: int| #[trigger] full(px, py) == done(px, py) by {
            if full(px, py) {
                let (wi, wr, wc, wb) = choose|wi: int, wr: int, wc: int, wb: int|
                    #![trigger glyph_bit(t[wi], wr, wc), square_at(x as int, y as int, wi, wr, wc, wb, sc, px, py)]
                    0 <= wi < t.len() && 0 <= wr < 8 && 0 <= wc < 8 && 0 <= wb <= (if bold {
                        1int
                    } else {
                        0
                    }) && glyph_bit(t[wi], wr, wc) && square_in_clip(y + wr * sc, sc, clip_top, clip_bottom)
                        && square_at(x as int, y as int, wi, wr, wc, wb, sc, px, py);
                assert(drawn_before(wi, wr, wc, i as int, 0, 0));
            }
        }
        assert(full =~= done);
    }
}


/// The corner radius a rounded rectangle `w` by `h` is drawn with:
/// `radius`, at least 0 and at most half of each side.
pub open spec fn used_radius(w: int, h: int, radius: int) -> int {
    let r0 = if radius > 0 {
        radius
    } else {
        0
    };
    let r1 = if r0 < w / 2 {
        r0
    } else {
        w / 2
    };
    if r1 < h / 2 {
        r1
    } else {
        h / 2
    }
}

/// A corner pixel `dx` and `dy` pixels in from the corner's circle centre
/// lies within the circle of radius `r`.
pub open spec fn within_corner(dx: int, dy: int, r: int) -> bool {
    dx * dx + dy * dy <= r * r
}

/// Pixel (`px`, `py`) lies in the rectangle at (`x`, `y`), `w` by `h`,
/// whose corners are rounded to quarter circles of the used radius.
pub open spec fn in_rounded_rect(px: int, py: int, x: int, y: int, w: int, h: int, radius: int) -> bool {
    let r = used_radius(w, h, radius);
    let lx = px - x;
    let ly = py - y;
    if w <= 0 || h <= 0 || lx < 0 || ly < 0 || lx >= w || ly >= h {
        false
    } else if r == 0 {
        true
    } else if lx < r && ly < r {
        within_corner(r - lx - 1, r - ly - 1, r)
    } else if lx >= w - r && ly < r {
        within_corner(lx - (w - r), r - ly - 1, r)
    } else if lx < r && ly >= h - r {
        within_corner(r - lx - 1, ly - (h - r), r)
    } else if lx >= w - r && ly >= h - r {
        within_corner(lx - (w - r), ly - (h - r), r)
    } else {
        true
    }
}

fn corner_within(dx: i32, dy: i32, r: i32) -> (b: bool)
    requires
        0 <= dx < r,
        0 <= dy < r,
    ensures
        b == within_corner(dx as int, dy as int, r as int),
{
    let dx = dx as i64;
    let dy = dy as i64;
    let r = r as i64;
    proof {
        assert(dx * dx <= r * r) by (nonlinear_arith)
            requires
                0 <= dx < r,
        ;
        assert(dy * dy <= r * r) by (nonlinear_arith)
            requires
                0 <= dy < r,
        ;
        assert(r * r <= 0x7fff_ffff * 0x7fff_ffff) by (nonlinear_arith)
            requires
                0 <= r <= 0x7fff_ffff,
        ;
        assert(0 <= dx * dx && 0 <= dy * dy) by (nonlinear_arith);
    }
    dx * dx + dy * dy <= r * r
}

/// Whether pixel (`px`, `py`) lies in the rectangle at (`x`, `y`),
/// `rect_width` by `rect_height`, with corners rounded to `radius` (at
/// least 0, at most half of each side).
pub fn point_in_rounded_rect(px: i32, py: i32, x: i32, y: i32, rect_width: i32, rect_height: i32, radius: i32) -> (b: bool)
    requires
        rect_width > 0 && rect_height > 0 ==> i32::MIN <= px - x <= i32::MAX && i32::MIN <= py - y <= i32::MAX,
    ensures
        b == in_rounded_rect(px as int, py as int, x as int, y as int, rect_width as int, rect_height as int, radius as int),
{
    if rect_width <= 0 || rect_height <= 0 {
        return false;
    }
    let r0 = if radius > 0 {
        radius
    } else {
        0
    };
    let r1 = if r0 < rect_width / 2 {
        r0
    } else {
        rect_width / 2
    };
    let r = if r1 < rect_height / 2 {
        r1
    } else {
        rect_height / 2
    };
    assert(r == used_radius(rect_width as int, rect_height as int, radius as int));
    let local_x = px - x;
    let local_y = py - y;
    if local_x < 0 || local_y < 0 || local_x >= rect_width || local_y >= rect_height {
        return false;
    }
    if r == 0 {
        return true;
    }
    if local_x < r && local_y < r {
        corner_within(r - local_x - 1, r - local_y - 1, r)
    } else if local_x >= rect_width - r && local_y < r {
        corner_within(local_x - (rect_width - r), r - local_y - 1, r)
    } else if local_x < r && local_y >= rect_height - r {
        corner_within(r - local_x - 1, local_y - (rect_height - r), r)
    } else if local_x >= rect_width - r && local_y >= rect_height - r {
        corner_within(local_x - (rect_width - r), local_y - (rect_height - r), r)
    } else {
        true
    }
}

/// With no corner radius a rounded rectangle is the plain rectangle that
/// `draw_rect` paints: on the frame's pixels the two regions agree.
pub proof fn law_square_corners_match_draw_rect(x: i32, y: i32, w: i32, h: i32, radius: i32, width: u32, height: u32)
    requires
        radius <= 0,
    ensures
        forall|px: int, py: int|
            0 <= px < width && 0 <= py ==> (#[trigger] in_rounded_rect(px, py, x as int, y as int, w as int, h as int, radius as int)
                && py < height) == rect_region(
                clip_span(x as int, w as int, width).0,
                clip_span(y as int, h as int, height).0,
                clip_span(x as int, w as int, width).1,
                clip_span(y as int, h as int, height).1,
            )(px, py),
{
}

/// The radius of an outline's inner edge: `radius` less the border, at
/// least 0.
pub open spec fn inner_radius(radius: int, border: int) -> int {
    if radius - border > 0 {
        radius - border
    } else {
        0
    }
}

/// The pixels of the frame's rows inside a rounded rectangle.
pub open spec fn rounded_region(x: int, y: int, w: int, h: int, radius: int, height: u32) -> spec_fn(int, int) -> bool {
    |px: int, py: int| py < height && in_rounded_rect(px, py, x, y, w, h, radius)
}

/// The pixels of the frame's rows on the outline, `border` pixels thick, of
/// a rounded rectangle: inside it and not inside the rectangle `border`
/// further in on every side (when that one is not empty).
pub open spec fn border_region(x: int, y: int, w: int, h: int, radius: int, border: int, height: u32) -> spec_fn(
    int,
    int,
) -> bool {
    |px: int, py: int|
        py < height && in_rounded_rect(px, py, x, y, w, h, radius) && !(w - 2 * border > 0 && h - 2 * border > 0
            && in_rounded_rect(px, py, x + border, y + border, w - 2 * border, h - 2 * border, inner_radius(radius, border)))
}

/// A rounded rectangle, or its outline `border` pixels thick when `border`
/// is positive.
#[derive(Clone, Copy)]
struct Shape {
    x: i32,
    y: i32,
    w: i32,
    h: i32,
    radius: i32,
    border: i32,
}

spec fn shape_has(s: Shape, px: int, py: int) -> bool {
    in_rounded_rect(px, py, s.x as int, s.y as int, s.w as int, s.h as int, s.radius as int) && !(s.border > 0 && s.w - 2
        * s.border > 0 && s.h - 2 * s.border > 0 && in_rounded_rect(
        px,
        py,
        s.x + s.border,
        s.y + s.border,
        s.w - 2 * s.border,
        s.h - 2 * s.border,
        inner_radius(s.radius as int, s.border as int),
    ))
}

/// The outline's inner rectangle can be computed in `i32`.
spec fn shape_fits(s: Shape) -> bool {
    s.border > 0 ==> {
        &&& s.x + s.border <= i32::MAX
        &&& s.y + s.border <= i32::MAX
        &&& s.border * 2 <= i32::MAX
        &&& i32::MIN <= s.w - 2 * s.border
        &&& i32::MIN <= s.h - 2 * s.border
        &&& i32::MIN <= s.radius - s.border
    }
}

fn shape_contains(s: Shape, px: i32, py: i32) -> (b: bool)
    requires
        shape_fits(s),
        s.x <= px < s.x + s.w,
        s.y <= py < s.y + s.h,
    ensures
        b == shape_has(s, px as int, py as int),
{
    if !point_in_rounded_rect(px, py, s.x, s.y, s.w, s.h, s.radius) {
        return false;
    }
    if s.border > 0 {
        let inner_width = s.w - s.border * 2;
        let inner_height = s.h - s.border * 2;
        let inner_r = if s.radius - s.border > 0 {
            s.radius - s.border
        } else {
            0
        };
        if inner_width > 0 && inner_height > 0 && point_in_rounded_rect(
            px,
            py,
            s.x + s.border,
            s.y + s.border,
            inner_width,
            inner_height,
            inner_r,
        ) {
            return false;
        }
    }
    true
}

/// Paints the pixels of the shape in row `py` from `x0` up to `x1`.
fn fill_shape_row(frame: &mut [u8], width: u32, height: u32, py: i32, x0: i32, x1: i32, s: Shape, color: Color)
    requires
        frame_fits(width, height),
        shape_fits(s),
        0 <= x0 <= x1 <= width,
        s.x <= x0,
        x1 <= s.x + s.w,
        0 <= py < height,
        s.y <= py < s.y + s.h,
    ensures
        painted_in(
            old(frame)@,
            final(frame)@,
            width,
            |qx: int, qy: int| qy == py && x0 <= qx < x1 && shape_has(s, qx, qy),
            color,
        ),
{
    let ghost start = frame@;
    proof {
        lemma_mapped_nothing(start, width, |qx: int, qy: int| qy == py && x0 <= qx < x0 && shape_has(s, qx, qy), paint_fn(color));
    }
    let mut px = x0;
    while px < x1
        invariant
            frame_fits(width, height),
            shape_fits(s),
            0 <= x0 <= px <= x1 <= width,
            s.x <= x0,
            x1 <= s.x + s.w,
            0 <= py < height,
            s.y <= py < s.y + s.h,
            painted_in(start, frame@, width, |qx: int, qy: int| qy == py && x0 <= qx < px && shape_has(s, qx, qy), color),
        decreases x1 - px,
    {
        let ghost before = frame@;
        let ghost r1 = |qx: int, qy: int| qy == py && x0 <= qx < px && shape_has(s, qx, qy);
        let ghost r = |qx: int, qy: int| qy == py && x0 <= qx < px + 1 && shape_has(s, qx, qy);
        if shape_contains(s, px, py) {
            set_pixel(frame, width, height, px, py, color);
            proof {
                lemma_pixel_set_painted(before, width, height, px as int, py as int, color);
                let r2 = rect_region(px as int, py as int, px + 1, py + 1);
                assert forall|qx: int, qy: int| #[trigger] r(qx, qy) == (r1(qx, qy) || r2(qx, qy)) by {}
                lemma_painted_union(start, before, frame@, width, r1, r2, r, color);
            }
        } else {
            proof {
                assert forall|qx: int, qy: int| 0 <= qx < width && 0 <= qy implies #[trigger] r1(qx, qy) == r(qx, qy) by {}
                lemma_painted_same_pixels(start, frame@, width, r1, r, color);
            }
        }
        px = px + 1;
    }
}

/// Paints the pixels of the shape within columns `x0` to `x1` and rows `y0`
/// to `y1`.
fn fill_shape(frame: &mut [u8], width: u32, height: u32, x0: i32, x1: i32, y0: i32, y1: i32, s: Shape, color: Color)
    requires
        frame_fits(width, height),
        shape_fits(s),
        0 <= x0,
        x1 <= width,
        s.x <= x0,
        x1 <= s.x + s.w,
        0 <= y0,
        y1 <= height,
        s.y <= y0,
        y1 <= s.y + s.h,
    ensures
        painted_in(
            old(frame)@,
            final(frame)@,
            width,
            |qx: int, qy: int| x0 <= qx < x1 && y0 <= qy < y1 && shape_has(s, qx, qy),
            color,
        ),
{
    let ghost start = frame@;
    if x1 <= x0 || y1 <= y0 {
        proof {
            lemma_mapped_nothing(start, width, |qx: int, qy: int| x0 <= qx < x1 && y0 <= qy < y1 && shape_has(s, qx, qy), paint_fn(color));
        }
        return;
    }
    proof {
        lemma_mapped_nothing(start, width, |qx: int, qy: int| x0 <= qx < x1 && y0 <= qy < y0 && shape_has(s, qx, qy), paint_fn(color));
    }
    let mut py = y0;
    while py < y1
        invariant
            frame_fits(width, height),
            shape_fits(s),
            0 <= x0 < x1 <= width,
            s.x <= x0,
            x1 <= s.x + s.w,
            0 <= y0 <= py <= y1 <= height,
            y1 <= s.y + s.h,
            s.y <= y0,
            painted_in(start, frame@, width, |qx: int, qy: int| x0 <= qx < x1 && y0 <= qy < py && shape_has(s, qx, qy), color),
        decreases y1 - py,
    {
        let ghost before = frame@;
        fill_shape_row(frame, width, height, py, x0, x1, s, color);
        proof {
            let r1 = |qx: int, qy: int| x0 <= qx < x1 && y0 <= qy < py && shape_has(s, qx, qy);
            let r2 = |qx: int, qy: int| qy == py && x0 <= qx < x1 && shape_has(s, qx, qy);
            let r = |qx: int, qy: int| x0 <= qx < x1 && y0 <= qy < py + 1 && shape_has(s, qx, qy);
            assert forall|qx: int, qy: int| #[trigger] r(qx, qy) == (r1(qx, qy) || r2(qx, qy)) by {}
            lemma_painted_union(start, before, frame@, width, r1, r2, r, color);
        }
        py = py + 1;
    }
}

/// A frame size as an `i32` bound: the size, or `i32::MAX` above it.
fn side_limit(n: u32) -> (r: i32)
    ensures
        r == if n <= i32::MAX {
            n as int
        } else {
            i32::MAX as int
        },
{
    if n > 0x7fff_ffff {
        0x7fff_ffff
    } else {
        n as i32
    }
}

/// Paints the rounded rectangle at (`x`, `y`), `rect_width` by
/// `rect_height`, corners of `radius`, cut to the frame.
pub fn draw_rounded_rect(
    frame: &mut [u8],
    width: u32,
    height: u32,
    x: i32,
    y: i32,
    rect_width: i32,
    rect_height: i32,
    radius: i32,
    color: Color,
)
    requires
        frame_fits(width, height),
        rect_width > 0 && rect_height > 0 ==> x + rect_width <= i32::MAX && y + rect_height <= i32::MAX,
    ensures
        painted_in(
            old(frame)@,
            final(frame)@,
            width,
            rounded_region(x as int, y as int, rect_width as int, rect_height as int, radius as int, height),
            color,
        ),
{
    let ghost start = frame@;
    let ghost want = rounded_region(x as int, y as int, rect_width as int, rect_height as int, radius as int, height);
    if rect_width <= 0 || rect_height <= 0 {
        proof {
            lemma_mapped_nothing(start, width, want, paint_fn(color));
        }
        return;
    }
    let s = Shape { x, y, w: rect_width, h: rect_height, radius, border: 0 };
    let x0 = if x > 0 {
        x
    } else {
        0
    };
    let y0 = if y > 0 {
        y
    } else {
        0
    };
    let right = x + rect_width;
    let bottom = y + rect_height;
    let width_limit = side_limit(width);
    let height_limit = side_limit(height);
    let x1 = if right < width_limit {
        right
    } else {
        width_limit
    };
    let y1 = if bottom < height_limit {
        bottom
    } else {
        height_limit
    };
    fill_shape(frame, width, height, x0, x1, y0, y1, s, color);
    proof {
        let got = |qx: int, qy: int| x0 <= qx < x1 && y0 <= qy < y1 && shape_has(s, qx, qy);
        assert forall|qx: int, qy: int| 0 <= qx < width && 0 <= qy implies #[trigger] got(qx, qy) == want(qx, qy) by {}
        lemma_painted_same_pixels(start, frame@, width, got, want, color);
    }
}

/// Paints the outline of the rounded rectangle at (`x`, `y`), `rect_width`
/// by `rect_height`, corners of `radius`: the pixels inside it and not
/// inside the rectangle `border_width` further in on every side (corners of
/// `radius` less the border), cut to the frame. A border of 0 or less
/// paints nothing.
pub fn draw_rounded_border(
    frame: &mut [u8],
    width: u32,
    height: u32,
    x: i32,
    y: i32,
    rect_width: i32,
    rect_height: i32,
    radius: i32,
    border_width: i32,
    color: Color,
)
    requires
        frame_fits(width, height),
        border_width > 0 ==> {
            &&& x + border_width <= i32::MAX
            &&& y + border_width <= i32::MAX
            &&& border_width * 2 <= i32::MAX
            &&& i32::MIN <= rect_width - 2 * border_width
            &&& i32::MIN <= rect_height - 2 * border_width
            &&& i32::MIN <= radius - border_width
            &&& i32::MIN <= x + rect_width <= i32::MAX
            &&& i32::MIN <= y + rect_height <= i32::MAX
        },
    ensures
        border_width <= 0 ==> final(frame)@ == old(frame)@,
        border_width > 0 ==> painted_in(
            old(frame)@,
            final(frame)@,
            width,
            border_region(
                x as int,
                y as int,
                rect_width as int,
                rect_height as int,
                radius as int,
                border_width as int,
                height,
            ),
            color,
        ),
{
    if border_width <= 0 {
        return;
    }
    let ghost start = frame@;
    let ghost want = border_region(
        x as int,
        y as int,
        rect_width as int,
        rect_height as int,
        radius as int,
        border_width as int,
        height,
    );
    let s = Shape { x, y, w: rect_width, h: rect_height, radius, border: border_width };
    let x0 = if x > 0 {
        x
    } else {
        0
    };
    let y0 = if y > 0 {
        y
    } else {
        0
    };
    let right = x + rect_width;
    let bottom = y + rect_height;
    let width_limit = side_limit(width);
    let height_limit = side_limit(height);
    let x1 = if right < width_limit {
        right
    } else {
        width_limit
    };
    let y1 = if bottom < height_limit {
        bottom
    } else {
        height_limit
    };
    if x1 <= x0 || y1 <= y0 {
        proof {
            assert forall|qx: int, qy: int| #[trigger] want(qx, qy) && 0 <= qx < width && 0 <= qy implies byte_at(width, qx, qy, 0) + 4 > start.len() by {
                assert(false);
            }
            lemma_mapped_nothing(start, width, want, paint_fn(color));
        }
        return;
    }
    fill_shape(frame, width, height, x0, x1, y0, y1, s, color);
    proof {
        let got = |qx: int, qy: int| x0 <= qx < x1 && y0 <= qy < y1 && shape_has(s, qx, qy);
        assert forall|qx: int, qy: int| 0 <= qx < width && 0 <= qy implies #[trigger] got(qx, qy) == want(qx, qy) by {}
        lemma_painted_same_pixels(start, frame@, width, got, want, color);
    }
}

} // verus!
