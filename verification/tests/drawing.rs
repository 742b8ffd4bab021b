use coreos::gfx::{clear_from, clear_line, draw_rect_raw, putchar_raw, BG_COLOR};

const W: usize = 16;
const H: usize = 40;
const PITCH: usize = 20;

fn blank() -> Vec<u32> {
    vec![7u32; PITCH * H]
}

/// A PSF2 font of two glyphs, 2 rows high, one byte per row: glyph 0 blank,
/// glyph 1 with the leftmost pixel of row 0 and the two rightmost of row 1.
fn font() -> Vec<u8> {
    let mut f = vec![0u8; 32 + 4];
    f[8..12].copy_from_slice(&32u32.to_le_bytes());
    f[16..20].copy_from_slice(&2u32.to_le_bytes());
    f[20..24].copy_from_slice(&2u32.to_le_bytes());
    f[24..28].copy_from_slice(&2u32.to_le_bytes());
    f[34] = 0x80;
    f[35] = 0x03;
    f
}

#[test]
fn rectangle_is_clipped_to_the_screen() {
    let mut fb = blank();
    draw_rect_raw(&mut fb, PITCH, W, H, 14, 38, 10, 10, 1);
    for y in 0..H {
        for x in 0..PITCH {
            let want = if x >= 14 && x < W && y >= 38 { 1 } else { 7 };
            assert_eq!(fb[y * PITCH + x], want, "pixel ({}, {})", x, y);
        }
    }
    let mut fb2 = blank();
    draw_rect_raw(&mut fb2, PITCH, W, H, 16, 0, 4, 4, 1);
    assert_eq!(fb2, blank());
}

#[test]
fn glyph_pixels_are_drawn_scaled() {
    let f = font();
    let mut fb = blank();
    putchar_raw(&mut fb, PITCH, W, H, &f, '\u{1}', 2, 3, 9, 2);
    let mut lit = Vec::new();
    for y in 0..H {
        for x in 0..PITCH {
            if fb[y * PITCH + x] == 9 {
                lit.push((x, y));
            }
        }
    }
    assert_eq!(lit, vec![(2, 3), (3, 3), (2, 4), (3, 4), (14, 5), (15, 5), (14, 6), (15, 6)]);
    // code points past the last glyph use the last glyph
    let mut fb2 = blank();
    putchar_raw(&mut fb2, PITCH, W, H, &f, 'z', 2, 3, 9, 2);
    assert_eq!(fb2, fb);
    // nothing is drawn from an origin off screen
    let mut fb3 = blank();
    putchar_raw(&mut fb3, PITCH, W, H, &f, '\u{1}', W, 0, 9, 1);
    assert_eq!(fb3, blank());
}

#[test]
fn clearing_paints_the_background() {
    let mut fb = blank();
    clear_from(&mut fb, PITCH, W, H, 30);
    for y in 0..H {
        for x in 0..PITCH {
            let want = if y >= 30 && x < W { BG_COLOR } else { 7 };
            assert_eq!(fb[y * PITCH + x], want);
        }
    }
    let mut fb = blank();
    clear_line(&mut fb, PITCH, W, H, 4, 1);
    for y in 0..H {
        for x in 0..PITCH {
            let want = if (4..20).contains(&y) && x < W { BG_COLOR } else { 7 };
            assert_eq!(fb[y * PITCH + x], want);
        }
    }
}
