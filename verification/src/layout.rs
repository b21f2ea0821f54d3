//! Screen rectangles, as the terminal UI library lays them out.
use vstd::prelude::*;

verus! {

/// A rectangular area of terminal cells.
#[derive(Debug, Clone, Copy, PartialEq, Eq, Structural)]
pub struct Rect {
    /// The x coordinate of the top left corner
    pub x: u16,
    /// The y coordinate of the top left corner
    pub y: u16,
    /// The width
    pub width: u16,
    /// The height
    pub height: u16,
}

/// `w` limited so that `start + w` stays within `u16`.
pub open spec fn clamp_extent(start: u16, w: u16) -> u16 {
    if w > u16::MAX - start {
        (u16::MAX - start) as u16
    } else {
        w
    }
}

/// The rectangle that `Rect::new(x, y, width, height)` builds.
pub open spec fn rect_new(x: int, y: int, width: int, height: int) -> Rect {
    Rect {
        x: x as u16,
        y: y as u16,
        width: clamp_extent(x as u16, width as u16),
        height: clamp_extent(y as u16, height as u16),
    }
}

impl Rect {
    /// The right and bottom edges can be computed without overflow.
    pub open spec fn well_formed(self) -> bool {
        self.x + self.width <= u16::MAX && self.y + self.height <= u16::MAX
    }

    /// The cell `(x, y)` lies inside the rectangle.
    pub open spec fn holds(self, x: int, y: int) -> bool {
        self.x <= x < self.x + self.width && self.y <= y < self.y + self.height
    }

    /// Creates a new `Rect`, with width and height limited to keep both
    /// bounds within `u16`.
    pub fn new(x: u16, y: u16, width: u16, height: u16) -> (r: Rect)
        ensures
            r == (Rect { x, y, width: clamp_extent(x, width), height: clamp_extent(y, height) }),
            r == rect_new(x as int, y as int, width as int, height as int),
            r.well_formed(),
    {
        let max_width = u16::MAX - x;
        let max_height = u16::MAX - y;
        let width = if width > max_width {
            max_width
        } else {
            width
        };
        let height = if height > max_height {
            max_height
        } else {
            height
        };
        Rect { x, y, width, height }
    }
}

impl Default for Rect {
    /// A zero sized rectangle at position 0,0
    fn default() -> (r: Rect)
        ensures
            r == (Rect { x: 0, y: 0, width: 0, height: 0 }),
    {
        Rect { x: 0, y: 0, width: 0, height: 0 }
    }
}

} // verus!
