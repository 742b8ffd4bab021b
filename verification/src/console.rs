//! The text cursor of the framebuffer terminal: where the next character
//! goes, how the cursor moves, and the terminal size in characters.
use vstd::prelude::*;

verus! {

/// Left margin of terminal text, in pixels.
pub const MARGIN_LEFT: usize = 20;
/// First pixel row of the terminal area, below the header.
pub const START_Y: usize = 120;

/// The terminal cursor and font scale shared by kernel and user output.
pub struct Console {
    pub x: usize,
    pub y: usize,
    pub scale: usize,
}

/// What writing a byte does to the screen, besides moving the cursor.
#[derive(Clone, Copy, PartialEq, Eq, Structural, Debug)]
pub enum FbAction {
    /// Nothing to draw.
    Skip,
    /// Draw character `ch` with its top-left corner at `(x, y)`.
    Draw { ch: u8, x: usize, y: usize },
    /// Paint the cell at `(x, y)` with the background.
    Erase { x: usize, y: usize },
    /// Clear the terminal area.
    Clear,
    /// Draw character `ch` at `(x, y)`, then clear the terminal area.
    DrawThenClear { ch: u8, x: usize, y: usize },
}

/// `v` held to `[lo, hi]`.
pub open spec fn clamp_spec(v: int, lo: int, hi: int) -> int {
    if v < lo { lo } else if v > hi { hi } else { v }
}

/// `v` held to the range of `u16`.
pub open spec fn to_u16_sat(v: int) -> u16 {
    if v > u16::MAX { u16::MAX } else { v as u16 }
}

/// `a - b`, or 0 when `b` is larger.
pub open spec fn sat_sub(a: int, b: int) -> int {
    if a > b { a - b } else { 0 }
}

impl Console {
    /// Cursor at the left margin of the first row (row 0 means "not placed yet"), scale 1.
    pub fn new() -> (c: Self)
        ensures
            c.x == MARGIN_LEFT && c.y == 0 && c.scale == 1,
    {
        Console { x: MARGIN_LEFT, y: 0, scale: 1 }
    }

    /// Place the cursor.
    pub fn set_userspace_cursor(&mut self, x: usize, y: usize)
        ensures
            final(self).x == x && final(self).y == y && final(self).scale == old(self).scale,
    {
        self.x = x;
        self.y = y;
    }

    /// The cursor's row, in pixels.
    pub fn get_userspace_cursor_y(&self) -> (r: usize)
        ensures
            r == self.y,
    {
        self.y
    }

    /// Set the font scale, held to 1 through 4.
    pub fn set_font_scale(&mut self, scale: usize)
        ensures
            final(self).scale == clamp_spec(scale as int, 1, 4),
            final(self).x == old(self).x && final(self).y == old(self).y,
    {
        self.scale = if scale < 1 { 1 } else if scale > 4 { 4 } else { scale };
    }

    /// The font scale.
    pub fn get_font_scale(&self) -> (r: usize)
        ensures
            r == self.scale,
    {
        self.scale
    }

    /// Terminal size for a framebuffer of `fb_w` by `fb_h` pixels:
    /// `(rows, columns, width, height)`, each held to the range of `u16`.
    pub fn tty_winsize(&self, fb_w: usize, fb_h: usize) -> (r: (u16, u16, u16, u16))
        requires
            self.scale <= 4,
        ensures
            ({
                let s = if self.scale < 1 { 1int } else { self.scale as int };
                &&& r.0 == to_u16_sat(sat_sub(fb_h as int, 120) / (16 * s))
                &&& r.1 == to_u16_sat(sat_sub(fb_w as int, 40) / (8 * s))
                &&& r.2 == to_u16_sat(fb_w as int)
                &&& r.3 == to_u16_sat(fb_h as int)
            }),
    {
        let scale = if self.scale < 1 { 1 } else { self.scale };
        let cols = fb_w.saturating_sub(40) / (8 * scale);
        let rows = fb_h.saturating_sub(120) / (16 * scale);
        (sat_u16(rows), sat_u16(cols), sat_u16(fb_w), sat_u16(fb_h))
    }

    /// Write byte `b` on a framebuffer of `fb_w` by `fb_h` pixels: a newline
    /// goes to the start of the next row, a backspace erases the cell before
    /// the cursor, other ASCII bytes are drawn where they fit and advance the
    /// cursor, wrapping at the right edge; running off the bottom clears the
    /// terminal area and starts again at its top. Bytes above 127 are skipped.
    /// With no framebuffer or font (a base address of 0) or a screen of zero
    /// width or height, nothing is drawn and the cursor stays where it is.
    pub fn write_byte(&mut self, b: u8, fb_base: u64, font_base: u64, fb_w: usize, fb_h: usize) -> (a: FbAction)
        requires
            1 <= old(self).scale <= 4,
            old(self).x + 64 <= usize::MAX,
            old(self).y + 128 <= usize::MAX,
        ensures
            final(self).scale == old(self).scale,
            !screen_ready(fb_base, font_base, fb_w, fb_h) ==> a == FbAction::Skip && *final(self) == *old(self),
            screen_ready(fb_base, font_base, fb_w, fb_h) ==> ({
                let y0 = if old(self).y == 0 { START_Y as int } else { old(self).y as int };
                let x0 = old(self).x as int;
                let cw = 8 * old(self).scale;
                let ch = 16 * old(self).scale;
                if b == 10 {
                    &&& final(self).x == MARGIN_LEFT
                    &&& if y0 + ch + ch >= fb_h {
                        a == FbAction::Clear && final(self).y == START_Y
                    } else {
                        a == FbAction::Skip && final(self).y == y0 + ch
                    }
                } else if b == 8 {
                    &&& final(self).y == y0
                    &&& if x0 >= MARGIN_LEFT + cw {
                        final(self).x == x0 - cw && a == (FbAction::Erase { x: (x0 - cw) as usize, y: y0 as usize })
                    } else {
                        final(self).x == x0 && a == FbAction::Skip
                    }
                } else if b > 127 {
                    a == FbAction::Skip && final(self).x == x0 && final(self).y == y0
                } else {
                    let drawn = y0 + ch <= fb_h && x0 + cw <= fb_w;
                    let x1 = x0 + cw;
                    if x1 + cw >= fb_w {
                        &&& final(self).x == MARGIN_LEFT
                        &&& if y0 + ch + ch >= fb_h {
                            &&& final(self).y == START_Y
                            &&& a == (if drawn { FbAction::DrawThenClear { ch: b, x: x0 as usize, y: y0 as usize } } else { FbAction::Clear })
                        } else {
                            &&& final(self).y == y0 + ch
                            &&& a == (if drawn { FbAction::Draw { ch: b, x: x0 as usize, y: y0 as usize } } else { FbAction::Skip })
                        }
                    } else {
                        &&& final(self).x == x1 && final(self).y == y0
                        &&& a == (if drawn { FbAction::Draw { ch: b, x: x0 as usize, y: y0 as usize } } else { FbAction::Skip })
                    }
                }
            }),
    {
        if fb_base == 0 || font_base == 0 || fb_w == 0 || fb_h == 0 {
            return FbAction::Skip;
        }
        let mut x = self.x;
        let mut y = self.y;
        if y == 0 {
            y = START_Y;
        }
        let char_w = 8 * self.scale;
        let char_h = 16 * self.scale;
        let action: FbAction;
        if b == 10 {
            x = MARGIN_LEFT;
            y = y + char_h;
            if y + char_h >= fb_h {
                y = START_Y;
                action = FbAction::Clear;
            } else {
                action = FbAction::Skip;
            }
        } else if b == 8 {
            if x >= MARGIN_LEFT + char_w {
                x = x - char_w;
                action = FbAction::Erase { x, y };
            } else {
                action = FbAction::Skip;
            }
        } else if b > 127 {
            action = FbAction::Skip;
        } else {
            let drawn = y + char_h <= fb_h && x + char_w <= fb_w;
            let x0 = x;
            let y0 = y;
            x = x + char_w;
            if x + char_w >= fb_w {
                x = MARGIN_LEFT;
                y = y + char_h;
                if y + char_h >= fb_h {
                    y = START_Y;
                    action = if drawn { FbAction::DrawThenClear { ch: b, x: x0, y: y0 } } else { FbAction::Clear };
                } else {
                    action = if drawn { FbAction::Draw { ch: b, x: x0, y: y0 } } else { FbAction::Skip };
                }
            } else {
                action = if drawn { FbAction::Draw { ch: b, x: x0, y: y0 } } else { FbAction::Skip };
            }
        }
        self.x = x;
        self.y = y;
        action
    }
}

/// Whether there is a screen to write on: a framebuffer and a font, and a
/// screen of non-zero width and height.
pub open spec fn screen_ready(fb_base: u64, font_base: u64, fb_w: usize, fb_h: usize) -> bool {
    fb_base != 0 && font_base != 0 && fb_w != 0 && fb_h != 0
}

fn sat_u16(v: usize) -> (r: u16)
    ensures
        r == to_u16_sat(v as int),
{
    if v > 65535 { 65535 } else { v as u16 }
}

} // verus!
