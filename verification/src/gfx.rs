//! Framebuffer drawing: filled rectangles and glyphs of a PSF2 font, clipped
//! to the visible area. Pixel `(px, py)` is word `py * pitch + px`.
use vstd::prelude::*;
use vstd::arithmetic::div_mod::lemma_fundamental_div_mod_converse;
use crate::elf::{le32, read_u32};

verus! {

pub const BG_COLOR: u32 = 0x0019_1724;
pub const TEXT_COLOR: u32 = 0x00E0_DEF4;
pub const CLOCK_COLOR: u32 = 0x00EB_BCBA;

/// The framebuffer geometry fits the buffer: rows no wider than the pitch,
/// and every visible pixel inside it.
pub open spec fn geometry_ok(len: int, pitch: int, fb_w: int, fb_h: int) -> bool {
    fb_w <= pitch && pitch * fb_h <= len
}

/// Whether word `i` of the buffer is a visible pixel inside the rectangle
/// with top-left corner `(x, y)`, width `w` and height `h`.
pub open spec fn in_rect(i: int, pitch: int, fb_w: int, fb_h: int, x: int, y: int, w: int, h: int) -> bool {
    pitch > 0 && i % pitch < fb_w && i / pitch < fb_h && x <= i % pitch < x + w && y <= i / pitch < y + h
}

proof fn lemma_pixel_index(py: int, px: int, pitch: int, fb_h: int, len: int)
    requires
        0 <= px < pitch,
        0 <= py < fb_h,
        pitch * fb_h <= len,
    ensures
        (py * pitch + px) / pitch == py,
        (py * pitch + px) % pitch == px,
        0 <= py * pitch + px < len,
{
    lemma_fundamental_div_mod_converse(py * pitch + px, pitch, py, px);
    assert(py * pitch + px < pitch * fb_h) by (nonlinear_arith)
        requires 0 <= px < pitch, 0 <= py < fb_h;
}

/// Fill the visible part of the rectangle at `(x, y)` of `w` by `h` pixels
/// with `color`; nothing else changes.
pub fn draw_rect_raw(fb: &mut [u32], pitch: usize, fb_w: usize, fb_h: usize, x: usize, y: usize, w: usize, h: usize, color: u32)
    requires
        geometry_ok(old(fb)@.len() as int, pitch as int, fb_w as int, fb_h as int),
    ensures
        final(fb)@.len() == old(fb)@.len(),
        forall|i: int| 0 <= i < old(fb)@.len() ==> #[trigger] final(fb)@[i] == (
            if in_rect(i, pitch as int, fb_w as int, fb_h as int, x as int, y as int, w as int, h as int) { color } else { old(fb)@[i] }),
{
    if fb_w == 0 || fb_h == 0 || y >= fb_h || x >= fb_w {
        assert forall|i: int| 0 <= i < old(fb)@.len() implies !in_rect(i, pitch as int, fb_w as int, fb_h as int, x as int, y as int, w as int, h as int) by {}
        return;
    }
    let y_end: usize = if h < fb_h - y { y + h } else { fb_h };
    let x_end: usize = if w < fb_w - x { x + w } else { fb_w };
    let ghost len = fb@.len() as int;
    assert(len <= usize::MAX) by { assert(fb@.len() == fb.len()); }
    let mut py: usize = y;
    while py < y_end
        invariant
            y <= py <= y_end <= fb_h,
            x <= x_end <= fb_w <= pitch,
            y_end == (if h < fb_h - y { y + h } else { fb_h as int }),
            x_end == (if w < fb_w - x { x + w } else { fb_w as int }),
            fb@.len() == len,
            len <= usize::MAX,
            len == old(fb)@.len(),
            geometry_ok(len, pitch as int, fb_w as int, fb_h as int),
            forall|i: int| 0 <= i < len ==> #[trigger] fb@[i] == (
                if in_rect(i, pitch as int, fb_w as int, fb_h as int, x as int, y as int, w as int, py - y) { color } else { old(fb)@[i] }),
        decreases y_end - py,
    {
        let mut px: usize = x;
        while px < x_end
            invariant
                y <= py < y_end <= fb_h,
                x <= px <= x_end <= fb_w <= pitch,
                y_end == (if h < fb_h - y { y + h } else { fb_h as int }),
                x_end == (if w < fb_w - x { x + w } else { fb_w as int }),
                fb@.len() == len,
                len <= usize::MAX,
                len == old(fb)@.len(),
                geometry_ok(len, pitch as int, fb_w as int, fb_h as int),
                forall|i: int| 0 <= i < len ==> #[trigger] fb@[i] == (
                    if in_rect(i, pitch as int, fb_w as int, fb_h as int, x as int, y as int, w as int, py - y)
                        || (i / (pitch as int) == py && x <= i % (pitch as int) < px && pitch > 0) { color } else { old(fb)@[i] }),
            decreases x_end - px,
        {
            proof { lemma_pixel_index(py as int, px as int, pitch as int, fb_h as int, len); }
            assert(py * pitch <= py * pitch + px);
            let idx = py * pitch + px;
            let ghost before = fb@;
            fb[idx] = color;
            proof {
                assert forall|i: int| 0 <= i < len implies #[trigger] fb@[i] == (
                    if in_rect(i, pitch as int, fb_w as int, fb_h as int, x as int, y as int, w as int, py - y)
                        || (i / (pitch as int) == py && x <= i % (pitch as int) < px + 1 && pitch > 0) { color } else { old(fb)@[i] }) by {
                    if i != idx {
                        assert(fb@[i] == before[i]);
                        vstd::arithmetic::div_mod::lemma_fundamental_div_mod(i, pitch as int);
                        if i / (pitch as int) == py && i % (pitch as int) == px {
                            assert((pitch as int) * (py as int) == (py as int) * (pitch as int)) by (nonlinear_arith);
                            assert(i == idx);
                        }
                    } else {
                        assert(fb@[i] == color);
                    }
                }
            }
            px = px + 1;
        }
        proof {
            assert forall|i: int| 0 <= i < len implies #[trigger] fb@[i] == (
                if in_rect(i, pitch as int, fb_w as int, fb_h as int, x as int, y as int, w as int, py + 1 - y) { color } else { old(fb)@[i] }) by {
                if pitch > 0 && i / (pitch as int) == py {
                    vstd::arithmetic::div_mod::lemma_fundamental_div_mod(i, pitch as int);
                }
            }
        }
        py = py + 1;
    }
    proof {
        assert forall|i: int| 0 <= i < len implies #[trigger] fb@[i] == (
            if in_rect(i, pitch as int, fb_w as int, fb_h as int, x as int, y as int, w as int, h as int) { color } else { old(fb)@[i] }) by {
            if pitch > 0 {
                vstd::arithmetic::div_mod::lemma_fundamental_div_mod(i, pitch as int);
            }
        }
    }
}

/// Glyph height, bytes per glyph, header size and glyph count of a PSF2 font.
pub open spec fn font_height(f: Seq<u8>) -> int { le32(f, 24) }
pub open spec fn font_bpg(f: Seq<u8>) -> int { le32(f, 20) }
pub open spec fn font_header(f: Seq<u8>) -> int { le32(f, 8) }
pub open spec fn font_glyphs(f: Seq<u8>) -> int { le32(f, 16) }

/// Whether a font's header is one the renderer draws with.
pub open spec fn font_usable(f: Seq<u8>) -> bool {
    1 <= font_height(f) <= 32 && 1 <= font_bpg(f) <= 256 && font_glyphs(f) > 0
}

/// Offset of the glyph for code point `c` (the last glyph for code points past the end).
pub open spec fn glyph_offset(f: Seq<u8>, c: char) -> int {
    font_header(f) + (if (c as int) < font_glyphs(f) - 1 { c as int } else { font_glyphs(f) - 1 }) * font_bpg(f)
}

/// Whether word `i` of the buffer is a lit pixel of glyph `c` drawn at
/// `(x, y)` with each font pixel a `scale` by `scale` square.
pub open spec fn glyph_lit(f: Seq<u8>, c: char, i: int, pitch: int, fb_w: int, fb_h: int, x: int, y: int, scale: int) -> bool {
    let px = i % pitch;
    let py = i / pitch;
    &&& pitch > 0 && scale > 0
    &&& px < fb_w && py < fb_h
    &&& x <= px < x + 8 * scale
    &&& y <= py < y + font_height(f) * scale
    &&& f[glyph_offset(f, c) + (py - y) / scale] & (0x80u8 >> (((px - x) / scale) as u8)) != 0
}

fn div_below(a: usize, s: usize, n: usize) -> (q: usize)
    requires
        s > 0,
        a < n * s,
    ensures
        q == a / s,
        q < n,
{
    assert(a / s < n) by (nonlinear_arith) requires s > 0, a < n * s, a >= 0;
    a / s
}

/// Draw glyph `c` of the PSF2 font `font` at `(x, y)` in `color`, each font
/// pixel a `scale` by `scale` square, clipped to the visible area. Nothing is
/// drawn with an unusable font or an origin off screen.
pub fn putchar_raw(fb: &mut [u32], pitch: usize, fb_w: usize, fb_h: usize, font: &[u8],
    c: char, x: usize, y: usize, color: u32, scale: usize)
    requires
        geometry_ok(old(fb)@.len() as int, pitch as int, fb_w as int, fb_h as int),
        font@.len() >= 28,
        font_usable(font@) ==> glyph_offset(font@, c) + font_height(font@) <= font@.len(),
        x + 8 * scale <= usize::MAX,
        y + 32 * scale <= usize::MAX,
    ensures
        final(fb)@.len() == old(fb)@.len(),
        forall|i: int| 0 <= i < old(fb)@.len() ==> #[trigger] final(fb)@[i] == (
            if font_usable(font@) && x < fb_w && y < fb_h
                && glyph_lit(font@, c, i, pitch as int, fb_w as int, fb_h as int, x as int, y as int, scale as int) {
                color
            } else {
                old(fb)@[i]
            }),
{
    let header_size = read_u32(font, 8) as usize;
    let bytes_per_glyph = read_u32(font, 20) as usize;
    let font_h = read_u32(font, 24) as usize;
    let num_glyphs = read_u32(font, 16) as usize;
    if font_h == 0 || font_h > 32 || bytes_per_glyph == 0 || bytes_per_glyph > 256 || num_glyphs == 0 {
        return;
    }
    if x >= fb_w || y >= fb_h || scale == 0 {
        return;
    }
    let ci = (c as u32) as usize;
    let glyph_idx = if ci < num_glyphs - 1 { ci } else { num_glyphs - 1 };
    proof {
        assert(font@.len() == font.len());
        assert(glyph_idx * bytes_per_glyph <= glyph_offset(font@, c));
    }
    let gb = header_size + glyph_idx * bytes_per_glyph;
    assert(font_h * scale <= 32 * scale) by (nonlinear_arith) requires font_h <= 32;
    let y_end: usize = if font_h * scale < fb_h - y { y + font_h * scale } else { fb_h };
    let x_end: usize = if 8 * scale < fb_w - x { x + 8 * scale } else { fb_w };
    let ghost len = fb@.len() as int;
    assert(len <= usize::MAX) by { assert(fb@.len() == fb.len()); }
    let ghost f = font@;
    let mut py: usize = y;
    while py < y_end
        invariant
            y <= py <= y_end <= fb_h,
            x <= x_end <= fb_w <= pitch,
            x < fb_w,
            scale > 0,
            font_usable(f) && f == font@,
            font_h == font_height(f),
            gb == glyph_offset(f, c),
            gb + font_h <= f.len(),
            f.len() <= usize::MAX,
            y_end == (if font_h * scale < fb_h - y { y + font_h * scale } else { fb_h as int }),
            x_end == (if 8 * scale < fb_w - x { x + 8 * scale } else { fb_w as int }),
            fb@.len() == len,
            len <= usize::MAX,
            len == old(fb)@.len(),
            geometry_ok(len, pitch as int, fb_w as int, fb_h as int),
            forall|i: int| 0 <= i < len ==> #[trigger] fb@[i] == (
                if glyph_lit(f, c, i, pitch as int, fb_w as int, fb_h as int, x as int, y as int, scale as int)
                    && i / (pitch as int) < py { color } else { old(fb)@[i] }),
        decreases y_end - py,
    {
        let row = div_below(py - y, scale, font_h);
        let bits = font[gb + row];
        let mut px: usize = x;
        while px < x_end
            invariant
                y <= py < y_end <= fb_h,
                x <= px <= x_end <= fb_w <= pitch,
                x < fb_w,
                scale > 0,
                font_usable(f) && f == font@,
                font_h == font_height(f),
                gb == glyph_offset(f, c),
                row == (py - y) / (scale as int),
                bits == f[gb + row],
                y_end == (if font_h * scale < fb_h - y { y + font_h * scale } else { fb_h as int }),
                x_end == (if 8 * scale < fb_w - x { x + 8 * scale } else { fb_w as int }),
                fb@.len() == len,
                len <= usize::MAX,
                len == old(fb)@.len(),
                geometry_ok(len, pitch as int, fb_w as int, fb_h as int),
                forall|i: int| 0 <= i < len ==> #[trigger] fb@[i] == (
                    if glyph_lit(f, c, i, pitch as int, fb_w as int, fb_h as int, x as int, y as int, scale as int)
                        && (i / (pitch as int) < py || (i / (pitch as int) == py && i % (pitch as int) < px)) { color } else { old(fb)@[i] }),
            decreases x_end - px,
        {
            let col = div_below(px - x, scale, 8);
            proof { lemma_pixel_index(py as int, px as int, pitch as int, fb_h as int, len); }
            assert(py * pitch <= py * pitch + px);
            let idx = py * pitch + px;
            let ghost before = fb@;
            let lit = bits & (0x80u8 >> (col as u8)) != 0;
            if lit {
                fb[idx] = color;
            }
            proof {
                assert forall|i: int| 0 <= i < len implies #[trigger] fb@[i] == (
                    if glyph_lit(f, c, i, pitch as int, fb_w as int, fb_h as int, x as int, y as int, scale as int)
                        && (i / (pitch as int) < py || (i / (pitch as int) == py && i % (pitch as int) < px + 1)) { color } else { old(fb)@[i] }) by {
                    vstd::arithmetic::div_mod::lemma_fundamental_div_mod(i, pitch as int);
                    if i != idx {
                        assert(fb@[i] == before[i]);
                        if i / (pitch as int) == py && i % (pitch as int) == px {
                            assert((pitch as int) * (py as int) == (py as int) * (pitch as int)) by (nonlinear_arith);
                            assert(i == idx);
                        }
                    } else {
                        assert(i / (pitch as int) == py && i % (pitch as int) == px);
                        assert(glyph_lit(f, c, i, pitch as int, fb_w as int, fb_h as int, x as int, y as int, scale as int) == lit);
                    }
                }
            }
            px = px + 1;
        }
        proof {
            assert forall|i: int| 0 <= i < len implies #[trigger] fb@[i] == (
                if glyph_lit(f, c, i, pitch as int, fb_w as int, fb_h as int, x as int, y as int, scale as int)
                    && i / (pitch as int) < py + 1 { color } else { old(fb)@[i] }) by {
                vstd::arithmetic::div_mod::lemma_fundamental_div_mod(i, pitch as int);
            }
        }
        py = py + 1;
    }
    proof {
        assert forall|i: int| 0 <= i < len implies #[trigger] fb@[i] == (
            if font_usable(font@) && x < fb_w && y < fb_h
                && glyph_lit(font@, c, i, pitch as int, fb_w as int, fb_h as int, x as int, y as int, scale as int) {
                color
            } else {
                old(fb)@[i]
            }) by {
            if pitch > 0 {
                vstd::arithmetic::div_mod::lemma_fundamental_div_mod(i, pitch as int);
            }
        }
    }
}

/// Paint every visible row from `start_y` down in the background colour.
pub fn clear_from(fb: &mut [u32], pitch: usize, fb_w: usize, fb_h: usize, start_y: usize)
    requires
        geometry_ok(old(fb)@.len() as int, pitch as int, fb_w as int, fb_h as int),
    ensures
        final(fb)@.len() == old(fb)@.len(),
        forall|i: int| 0 <= i < old(fb)@.len() ==> #[trigger] final(fb)@[i] == (
            if pitch > 0 && i % (pitch as int) < fb_w && start_y <= i / (pitch as int) < fb_h { BG_COLOR } else { old(fb)@[i] }),
{
    if fb_w == 0 || fb_h <= start_y {
        return;
    }
    draw_rect_raw(fb, pitch, fb_w, fb_h, 0, start_y, fb_w, fb_h - start_y, BG_COLOR);
}

/// Paint one text line (16 font rows at `scale`) starting at row `y` in the
/// background colour, clipped to the visible area.
pub fn clear_line(fb: &mut [u32], pitch: usize, fb_w: usize, fb_h: usize, y: usize, scale: usize)
    requires
        geometry_ok(old(fb)@.len() as int, pitch as int, fb_w as int, fb_h as int),
        16 * scale <= usize::MAX,
    ensures
        final(fb)@.len() == old(fb)@.len(),
        forall|i: int| 0 <= i < old(fb)@.len() ==> #[trigger] final(fb)@[i] == (
            if in_rect(i, pitch as int, fb_w as int, fb_h as int, 0, y as int, fb_w as int, 16 * scale) { BG_COLOR } else { old(fb)@[i] }),
{
    if fb_w == 0 {
        return;
    }
    draw_rect_raw(fb, pitch, fb_w, fb_h, 0, y, fb_w, 16 * scale, BG_COLOR);
}

} // verus!
