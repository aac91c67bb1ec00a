use vstd::prelude::*;

verus! {

/// A rectangle in terminal coordinates (zero-based, col/row).
#[derive(Debug, Clone, Copy, PartialEq, Eq, Structural)]
pub struct Rect {
    pub x: u16,
    pub y: u16,
    pub width: u16,
    pub height: u16,
}

impl Default for Rect {
    fn default() -> (r: Rect)
        ensures
            r == (Rect { x: 0, y: 0, width: 0, height: 0 }),
    {
        Rect { x: 0, y: 0, width: 0, height: 0 }
    }
}

/// `a - b`, or zero when `b > a`.
pub open spec fn sat_sub(a: int, b: int) -> int {
    if a >= b { a - b } else { 0 }
}

impl Rect {
    pub fn new(x: u16, y: u16, width: u16, height: u16) -> (r: Self)
        ensures
            r == (Rect { x, y, width, height }),
    {
        Rect { x, y, width, height }
    }

    /// Inset the rectangle by `margin` on all sides.
    pub fn inner(self, margin: u16) -> (r: Self)
        requires
            2 * margin <= u16::MAX,
            self.x + margin <= u16::MAX,
            self.y + margin <= u16::MAX,
        ensures
            r.x == self.x + margin,
            r.y == self.y + margin,
            r.width == sat_sub(self.width as int, 2 * margin),
            r.height == sat_sub(self.height as int, 2 * margin),
    {
        let m2 = margin * 2;
        Rect {
            x: self.x + margin,
            y: self.y + margin,
            width: self.width.saturating_sub(m2),
            height: self.height.saturating_sub(m2),
        }
    }

    /// Split horizontally after `left_w` columns (clamped to the width).
    /// Returns `(left, right)`: together they cover the rectangle exactly.
    pub fn split_h_at(self, left_w: u16) -> (r: (Self, Self))
        requires
            self.x + (if left_w < self.width { left_w } else { self.width }) <= u16::MAX,
        ensures
            r.0.x == self.x,
            r.0.y == self.y,
            r.0.height == self.height,
            r.0.width == (if left_w < self.width { left_w } else { self.width }),
            r.1.x == self.x + r.0.width,
            r.1.y == self.y,
            r.1.height == self.height,
            r.0.width + r.1.width == self.width,
    {
        let lw = if left_w < self.width { left_w } else { self.width };
        let right_w = self.width.saturating_sub(lw);
        (Rect::new(self.x, self.y, lw, self.height), Rect::new(self.x + lw, self.y, right_w, self.height))
    }

    /// Split vertically after `top_h` rows (clamped to the height).
    /// Returns `(top, bottom)`: together they cover the rectangle exactly.
    pub fn split_v_at(self, top_h: u16) -> (r: (Self, Self))
        requires
            self.y + (if top_h < self.height { top_h } else { self.height }) <= u16::MAX,
        ensures
            r.0.x == self.x,
            r.0.y == self.y,
            r.0.width == self.width,
            r.0.height == (if top_h < self.height { top_h } else { self.height }),
            r.1.x == self.x,
            r.1.y == self.y + r.0.height,
            r.1.width == self.width,
            r.0.height + r.1.height == self.height,
    {
        let th = if top_h < self.height { top_h } else { self.height };
        let bot_h = self.height.saturating_sub(th);
        (Rect::new(self.x, self.y, self.width, th), Rect::new(self.x, self.y + th, self.width, bot_h))
    }
}

} // verus!
