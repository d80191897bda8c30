//! Points and rectangles in device-independent units.
//!
//! Coordinates are kept inside a fixed window (`COORD_MIN ..= COORD_MAX`) so
//! that every sum or difference of two coordinates fits an `i32`.

use vstd::prelude::*;

verus! {

/// Largest coordinate value the library works with.
pub const COORD_MAX: i32 = 0x0100_0000;
/// Smallest coordinate value the library works with.
pub const COORD_MIN: i32 = -0x0100_0000;

/// A point in device-independent units.
#[derive(Clone, Copy, PartialEq, Eq, Structural, Debug)]
pub struct Point {
    pub x: i32,
    pub y: i32,
}

/// An axis-aligned rectangle; `left`/`top` are inclusive, `right`/`bottom` exclusive.
#[derive(Clone, Copy, PartialEq, Eq, Structural, Debug)]
pub struct Rect {
    pub left: i32,
    pub top: i32,
    pub right: i32,
    pub bottom: i32,
}

impl Point {
    /// Both coordinates lie inside the library's coordinate window.
    pub open spec fn in_range(self) -> bool {
        COORD_MIN <= self.x <= COORD_MAX && COORD_MIN <= self.y <= COORD_MAX
    }
}

impl Rect {
    /// All four coordinates lie inside the library's coordinate window.
    pub open spec fn in_range(self) -> bool {
        COORD_MIN <= self.left <= COORD_MAX && COORD_MIN <= self.right <= COORD_MAX
            && COORD_MIN <= self.top <= COORD_MAX && COORD_MIN <= self.bottom <= COORD_MAX
    }

    /// The sides are ordered, so the rectangle describes a (possibly empty) area.
    pub open spec fn well_formed(self) -> bool {
        self.in_range() && self.left <= self.right && self.top <= self.bottom
    }

    /// The rectangle covers no area.
    pub open spec fn spec_is_empty(self) -> bool {
        self.right <= self.left || self.bottom <= self.top
    }

    /// The point lies inside the rectangle.
    pub open spec fn spec_contains(self, p: Point) -> bool {
        self.left <= p.x < self.right && self.top <= p.y < self.bottom
    }

    /// An all-zero rectangle.
    pub fn zero() -> (r: Rect)
        ensures
            r == (Rect { left: 0, top: 0, right: 0, bottom: 0 }),
    {
        Rect { left: 0, top: 0, right: 0, bottom: 0 }
    }

    /// Whether the rectangle covers no area.
    pub fn is_empty(&self) -> (r: bool)
        ensures
            r == self.spec_is_empty(),
    {
        self.right <= self.left || self.bottom <= self.top
    }

    /// Whether the point lies inside the rectangle.
    pub fn contains(&self, p: Point) -> (r: bool)
        ensures
            r == self.spec_contains(p),
    {
        self.left <= p.x && p.x < self.right && self.top <= p.y && p.y < self.bottom
    }

    /// The intersection of two rectangles, when it is non-empty.
    pub open spec fn spec_intersect(self, other: Rect) -> Rect {
        Rect {
            left: if self.left >= other.left { self.left } else { other.left },
            top: if self.top >= other.top { self.top } else { other.top },
            right: if self.right <= other.right { self.right } else { other.right },
            bottom: if self.bottom <= other.bottom { self.bottom } else { other.bottom },
        }
    }

    /// Intersects two rectangles; `None` when they share no area.
    pub fn intersect(&self, other: &Rect) -> (r: Option<Rect>)
        ensures
            match r {
                Some(rect) => rect == self.spec_intersect(*other)
                    && !self.spec_intersect(*other).spec_is_empty(),
                None => self.spec_intersect(*other).spec_is_empty(),
            },
    {
        let left = if self.left >= other.left { self.left } else { other.left };
        let top = if self.top >= other.top { self.top } else { other.top };
        let right = if self.right <= other.right { self.right } else { other.right };
        let bottom = if self.bottom <= other.bottom { self.bottom } else { other.bottom };
        if left < right && top < bottom {
            Some(Rect { left, top, right, bottom })
        } else {
            None
        }
    }

    /// The rectangle moved by `(dx, dy)`.
    pub open spec fn spec_offset(self, dx: int, dy: int) -> Rect {
        Rect {
            left: (self.left + dx) as i32,
            top: (self.top + dy) as i32,
            right: (self.right + dx) as i32,
            bottom: (self.bottom + dy) as i32,
        }
    }

    /// Moves the rectangle by `(dx, dy)`.
    pub fn offset(&self, dx: i32, dy: i32) -> (r: Rect)
        requires
            self.in_range(),
            COORD_MIN <= dx <= COORD_MAX,
            COORD_MIN <= dy <= COORD_MAX,
        ensures
            r == self.spec_offset(dx as int, dy as int),
    {
        Rect {
            left: self.left + dx,
            top: self.top + dy,
            right: self.right + dx,
            bottom: self.bottom + dy,
        }
    }
}

} // verus!
