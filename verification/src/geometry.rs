//! The rectangle type for damage regions, with clamping against a buffer
//! extent, containment, and geometric union.

use vstd::prelude::*;

verus! {

/// A rectangle in the buffer's pixel coordinate space. `left`/`top` is the
/// corner nearest the origin; `width`/`height` is its extent in pixels.
#[derive(Clone, Copy, PartialEq, Eq, Structural, Debug)]
pub struct Damage {
    pub left: usize,
    pub top: usize,
    pub width: usize,
    pub height: usize,
}

pub open spec fn min_usize(a: usize, b: usize) -> usize {
    if a < b {
        a
    } else {
        b
    }
}

/// Index of the pixel at `(col, row)` in a row-major grid of the given width.
pub open spec fn pos(row: int, col: int, width: int) -> int {
    row * width + col
}

pub open spec fn spec_is_empty(r: Damage) -> bool {
    r.width == 0 || r.height == 0
}

/// No coordinate arithmetic on the rectangle overflows `usize`.
pub open spec fn rect_wf(r: Damage) -> bool {
    r.left + r.width <= usize::MAX && r.top + r.height <= usize::MAX
}

/// The rectangle lies entirely within a `w` by `h` grid.
pub open spec fn spec_fits(r: Damage, w: usize, h: usize) -> bool {
    r.left + r.width <= w && r.top + r.height <= h
}

/// `outer` contains `inner`; an empty rectangle is contained everywhere.
pub open spec fn spec_contains(outer: Damage, inner: Damage) -> bool {
    spec_is_empty(inner) || (outer.left <= inner.left && outer.top <= inner.top
        && inner.left + inner.width <= outer.left + outer.width && inner.top + inner.height
        <= outer.top + outer.height)
}

/// Geometric union: the smallest rectangle enclosing both, where an empty
/// argument contributes nothing.
pub open spec fn spec_union(a: Damage, b: Damage) -> Damage {
    if spec_is_empty(a) {
        b
    } else if spec_is_empty(b) {
        a
    } else {
        let left = min_usize(a.left, b.left);
        let top = min_usize(a.top, b.top);
        let right = if a.left + a.width >= b.left + b.width {
            a.left + a.width
        } else {
            b.left + b.width
        };
        let bottom = if a.top + a.height >= b.top + b.height {
            a.top + a.height
        } else {
            b.top + b.height
        };
        Damage {
            left,
            top,
            width: (right - left) as usize,
            height: (bottom - top) as usize,
        }
    }
}

/// The candidate rectangle clamped against a `w` by `h` buffer extent,
/// before the zero-area test.
pub open spec fn spec_clamp_rect(r: Damage, w: usize, h: usize) -> Damage {
    let left = min_usize(r.left, w);
    let top = min_usize(r.top, h);
    Damage {
        left,
        top,
        width: min_usize(r.width, (w - left) as usize),
        height: min_usize(r.height, (h - top) as usize),
    }
}

/// Clamping yields a rectangle only when the clamped result still has area;
/// a degenerate or fully outside rectangle yields nothing.
pub open spec fn spec_clamp(r: Damage, w: usize, h: usize) -> Option<Damage> {
    let c = spec_clamp_rect(r, w, h);
    if spec_is_empty(c) {
        Option::None
    } else {
        Option::Some(c)
    }
}

impl Damage {
    pub fn new(left: usize, top: usize, width: usize, height: usize) -> (r: Damage)
        ensures
            r == (Damage { left, top, width, height }),
    {
        Damage { left, top, width, height }
    }

    pub fn is_empty(&self) -> (r: bool)
        ensures
            r == spec_is_empty(*self),
    {
        self.width == 0 || self.height == 0
    }

    /// Whether `self` fully encloses `other`.
    pub fn contains_rect(&self, other: &Damage) -> (r: bool)
        requires
            rect_wf(*self),
            rect_wf(*other),
        ensures
            r == spec_contains(*self, *other),
    {
        (other.width == 0 || other.height == 0) || (self.left <= other.left && self.top
            <= other.top && other.left + other.width <= self.left + self.width && other.top
            + other.height <= self.top + self.height)
    }

    /// The smallest rectangle enclosing both `self` and `other`.
    pub fn union(&self, other: &Damage) -> (r: Damage)
        requires
            rect_wf(*self),
            rect_wf(*other),
        ensures
            r == spec_union(*self, *other),
            rect_wf(r),
    {
        if self.width == 0 || self.height == 0 {
            *other
        } else if other.width == 0 || other.height == 0 {
            *self
        } else {
            let left = if self.left < other.left {
                self.left
            } else {
                other.left
            };
            let top = if self.top < other.top {
                self.top
            } else {
                other.top
            };
            let self_right = self.left + self.width;
            let other_right = other.left + other.width;
            let right = if self_right >= other_right {
                self_right
            } else {
                other_right
            };
            let self_bottom = self.top + self.height;
            let other_bottom = other.top + other.height;
            let bottom = if self_bottom >= other_bottom {
                self_bottom
            } else {
                other_bottom
            };
            Damage { left, top, width: right - left, height: bottom - top }
        }
    }
}

/// Clamping a candidate rectangle against a buffer extent.
pub trait Clamp {
    fn clamp(&self, width: usize, height: usize) -> Option<Damage>;
}

impl Clamp for Damage {
    /// Clamp against the current buffer extent. Yields `None` exactly when
    /// the clamped rectangle is degenerate or lies fully outside the extent;
    /// otherwise the result lies entirely within the `width` by `height` grid.
    fn clamp(&self, width: usize, height: usize) -> (r: Option<Damage>)
        ensures
            r == spec_clamp(*self, width, height),
            r matches Option::Some(c) ==> !spec_is_empty(c) && spec_fits(c, width, height)
                && rect_wf(c),
    {
        let left = if self.left < width {
            self.left
        } else {
            width
        };
        let top = if self.top < height {
            self.top
        } else {
            height
        };
        let avail_w = width - left;
        let avail_h = height - top;
        let w = if self.width < avail_w {
            self.width
        } else {
            avail_w
        };
        let h = if self.height < avail_h {
            self.height
        } else {
            avail_h
        };
        if w == 0 || h == 0 {
            Option::None
        } else {
            Option::Some(Damage { left, top, width: w, height: h })
        }
    }
}

impl Default for Damage {
    /// The empty rectangle at the origin.
    fn default() -> (r: Damage)
        ensures
            r == (Damage { left: 0, top: 0, width: 0, height: 0 }),
    {
        Damage { left: 0, top: 0, width: 0, height: 0 }
    }
}

pub proof fn lemma_union_wf(a: Damage, b: Damage)
    requires
        rect_wf(a),
        rect_wf(b),
    ensures
        rect_wf(spec_union(a, b)),
{
}

/// The union of two rectangles contains each of them.
pub proof fn lemma_union_contains(a: Damage, b: Damage)
    requires
        rect_wf(a),
        rect_wf(b),
    ensures
        spec_contains(spec_union(a, b), a),
        spec_contains(spec_union(a, b), b),
{
}

/// Containment is transitive.
pub proof fn lemma_contains_trans(a: Damage, b: Damage, c: Damage)
    requires
        spec_contains(a, b),
        spec_contains(b, c),
    ensures
        spec_contains(a, c),
{
}

} // verus!
