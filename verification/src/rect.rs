//! Axis-aligned rectangles in screen coordinates.

use vstd::prelude::*;

verus! {

/// Largest magnitude of a screen coordinate, and largest width or height of a
/// window, that the geometry of this crate is defined for. Sums of a few such
/// values stay far inside the range of `i32`.
pub const MAX_EXTENT: i32 = 268_435_456;

/// A rectangle given by its four edges, in screen coordinates.
#[derive(Clone, Copy, Debug, PartialEq, Eq, Structural)]
pub struct Rect {
    pub left: i32,
    pub top: i32,
    pub right: i32,
    pub bottom: i32,
}

impl Rect {
    /// Horizontal extent, as a mathematical integer.
    pub open spec fn spec_width(self) -> int {
        self.right - self.left
    }

    /// Vertical extent, as a mathematical integer.
    pub open spec fn spec_height(self) -> int {
        self.bottom - self.top
    }

    /// The rectangle is not inverted and every edge lies within `MAX_EXTENT` of
    /// the origin: what the working area of a display has to satisfy.
    pub open spec fn fits_screen(self) -> bool {
        &&& self.left <= self.right
        &&& self.top <= self.bottom
        &&& -MAX_EXTENT <= self.left
        &&& -MAX_EXTENT <= self.top
        &&& self.right <= MAX_EXTENT
        &&& self.bottom <= MAX_EXTENT
    }

    /// Width and height are between zero and `MAX_EXTENT`: what the placement
    /// of a window has to satisfy, wherever it lies.
    pub open spec fn has_bounded_size(self) -> bool {
        &&& 0 <= self.spec_width() <= MAX_EXTENT
        &&& 0 <= self.spec_height() <= MAX_EXTENT
    }

    /// The rectangle of the size of `self` whose top-left corner is `(x, y)`.
    pub open spec fn moved_to(self, x: int, y: int) -> Rect {
        Rect {
            left: x as i32,
            top: y as i32,
            right: (x + self.spec_width()) as i32,
            bottom: (y + self.spec_height()) as i32,
        }
    }

    /// The x coordinate at which `self` is horizontally centered in `outer`.
    pub open spec fn centered_x(self, outer: Rect) -> int {
        outer.left + outer.spec_width() / 2 - self.spec_width() / 2
    }

    /// The y coordinate at which `self` is vertically centered in `outer`.
    pub open spec fn centered_y(self, outer: Rect) -> int {
        outer.top + outer.spec_height() / 2 - self.spec_height() / 2
    }

    /// The rectangle of the size of `self` that is centered in `outer`.
    pub open spec fn centered_in(self, outer: Rect) -> Rect {
        self.moved_to(self.centered_x(outer), self.centered_y(outer))
    }

    /// The smallest rectangle that covers both `self` and `other`.
    pub open spec fn spec_union(self, other: Rect) -> Rect {
        Rect {
            left: if self.left <= other.left { self.left } else { other.left },
            top: if self.top <= other.top { self.top } else { other.top },
            right: if self.right >= other.right { self.right } else { other.right },
            bottom: if self.bottom >= other.bottom { self.bottom } else { other.bottom },
        }
    }

    /// Builds a rectangle from its four edges.
    pub fn from_ltrb(left: i32, top: i32, right: i32, bottom: i32) -> (r: Rect)
        ensures
            r == (Rect { left, top, right, bottom }),
    {
        Rect { left, top, right, bottom }
    }

    /// Builds a rectangle from its top-left corner and its size.
    pub fn from_xy(x: i32, y: i32, width: i32, height: i32) -> (r: Rect)
        requires
            i32::MIN <= x + width <= i32::MAX,
            i32::MIN <= y + height <= i32::MAX,
        ensures
            r == (Rect { left: x, top: y, right: (x + width) as i32, bottom: (y + height) as i32 }),
            r.spec_width() == width,
            r.spec_height() == height,
    {
        Rect { left: x, top: y, right: x + width, bottom: y + height }
    }

    /// The x coordinate of the left edge.
    pub fn x(&self) -> (r: i32)
        ensures
            r == self.left,
    {
        self.left
    }

    /// The y coordinate of the top edge.
    pub fn y(&self) -> (r: i32)
        ensures
            r == self.top,
    {
        self.top
    }

    /// The width of the rectangle.
    pub fn width(&self) -> (r: i32)
        requires
            i32::MIN <= self.spec_width() <= i32::MAX,
        ensures
            r == self.spec_width(),
    {
        self.right - self.left
    }

    /// The height of the rectangle.
    pub fn height(&self) -> (r: i32)
        requires
            i32::MIN <= self.spec_height() <= i32::MAX,
        ensures
            r == self.spec_height(),
    {
        self.bottom - self.top
    }

    /// Whether the working area of a display may have this shape.
    pub fn check_fits_screen(&self) -> (r: bool)
        ensures
            r == self.fits_screen(),
    {
        self.left <= self.right && self.top <= self.bottom && -MAX_EXTENT <= self.left
            && -MAX_EXTENT <= self.top && self.right <= MAX_EXTENT && self.bottom <= MAX_EXTENT
    }

    /// Whether the placement of a window may have this size.
    pub fn check_bounded_size(&self) -> (r: bool)
        ensures
            r == self.has_bounded_size(),
    {
        let w: i64 = self.right as i64 - self.left as i64;
        let h: i64 = self.bottom as i64 - self.top as i64;
        0 <= w && w <= MAX_EXTENT as i64 && 0 <= h && h <= MAX_EXTENT as i64
    }

    /// Moves the rectangle so that its top-left corner is `(x, y)`, keeping its
    /// size.
    pub fn translate_to_coordinates(&self, x: i32, y: i32) -> (r: Rect)
        requires
            i32::MIN <= self.spec_width() <= i32::MAX,
            i32::MIN <= self.spec_height() <= i32::MAX,
            i32::MIN <= x + self.spec_width() <= i32::MAX,
            i32::MIN <= y + self.spec_height() <= i32::MAX,
        ensures
            r == self.moved_to(x as int, y as int),
            r.spec_width() == self.spec_width(),
            r.spec_height() == self.spec_height(),
    {
        Rect::from_xy(x, y, self.width(), self.height())
    }

    /// Moves the rectangle to the center of `outer`, keeping its size.
    pub fn translate_to_center(&self, outer: &Rect) -> (r: Rect)
        requires
            self.has_bounded_size(),
            outer.fits_screen(),
        ensures
            r == self.centered_in(*outer),
            r.spec_width() == self.spec_width(),
            r.spec_height() == self.spec_height(),
            r.has_bounded_size(),
    {
        self.translate_to_coordinates(
            outer.left + outer.width() / 2 - self.width() / 2,
            outer.top + outer.height() / 2 - self.height() / 2,
        )
    }

    /// The bounding rectangle of `self` and `other`.
    pub fn union(&self, other: &Rect) -> (r: Rect)
        ensures
            r == self.spec_union(*other),
            self.fits_screen() && other.fits_screen() ==> r.fits_screen(),
    {
        Rect {
            left: if self.left <= other.left { self.left } else { other.left },
            top: if self.top <= other.top { self.top } else { other.top },
            right: if self.right >= other.right { self.right } else { other.right },
            bottom: if self.bottom >= other.bottom { self.bottom } else { other.bottom },
        }
    }
}

} // verus!
