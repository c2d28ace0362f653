//! Integer points and the hole rectangle.
//!
//! The point and rectangle types hold plain coordinates, so that contracts can
//! speak of them; the boundary queries themselves are answered by visioncortex.

use vstd::prelude::*;

verus! {

/// A point with integer coordinates; `x` grows to the right, `y` grows downwards.
#[derive(Clone, Copy, Debug, PartialEq, Eq, Structural, Hash)]
pub struct PointI32 {
    pub x: i32,
    pub y: i32,
}

/// A grid coordinate.
#[derive(Clone, Copy, Debug, PartialEq, Eq, Structural, Hash)]
pub struct PointUsize {
    pub x: usize,
    pub y: usize,
}

/// A rectangle with integer coordinates. Its boundary runs through the lattice
/// points with `x` in `left..=right` and `y` in `top..=bottom` that lie on one
/// of its four sides.
#[derive(Clone, Copy, Debug, PartialEq, Eq, Structural)]
pub struct BoundingRect {
    pub left: i32,
    pub top: i32,
    pub right: i32,
    pub bottom: i32,
}

impl PointI32 {
    pub fn new(x: i32, y: i32) -> (p: Self)
        ensures
            p.x == x,
            p.y == y,
    {
        PointI32 { x, y }
    }
}

impl PointUsize {
    pub fn new(x: usize, y: usize) -> (p: Self)
        ensures
            p.x == x,
            p.y == y,
    {
        PointUsize { x, y }
    }
}

impl BoundingRect {
    pub open spec fn spec_width(&self) -> int {
        self.right - self.left
    }

    pub open spec fn spec_height(&self) -> int {
        self.bottom - self.top
    }

    /// `p` lies on one of the four sides, corners included.
    pub open spec fn on_boundary(&self, p: PointI32) -> bool {
        ((p.x == self.left || p.x == self.right) && self.top <= p.y <= self.bottom) || ((p.y
            == self.top || p.y == self.bottom) && self.left <= p.x <= self.right)
    }

    /// The rectangle is at least two units wide and high, its area fits in
    /// `i32`, and one unit of room is left around it in the `i32` plane. On such
    /// a rectangle every boundary point has exactly two neighbours on the
    /// boundary, so that the boundary is one cycle.
    pub open spec fn well_formed(&self) -> bool {
        &&& self.spec_width() >= 2
        &&& self.spec_height() >= 2
        &&& self.spec_width() * self.spec_height() <= i32::MAX
        &&& i32::MIN < self.left
        &&& i32::MIN < self.top
        &&& self.right < i32::MAX
        &&& self.bottom < i32::MAX
    }

    /// Number of points on the boundary of a well-formed rectangle.
    pub open spec fn perimeter(&self) -> int {
        2 * (self.spec_width() + self.spec_height())
    }

    /// The `k`-th boundary point, counted from the top-left corner along the
    /// top side to the right, down the right side, back along the bottom side
    /// and up the left side.
    pub open spec fn boundary_point(&self, k: int) -> PointI32 {
        let w = self.spec_width();
        let h = self.spec_height();
        if k < w {
            PointI32 { x: (self.left + k) as i32, y: self.top }
        } else if k < w + h {
            PointI32 { x: self.right, y: (self.top + (k - w)) as i32 }
        } else if k < 2 * w + h {
            PointI32 { x: (self.right - (k - w - h)) as i32, y: self.bottom }
        } else {
            PointI32 { x: self.left, y: (self.bottom - (k - 2 * w - h)) as i32 }
        }
    }

    /// The position of a boundary point in the order of `boundary_point`.
    pub open spec fn boundary_index(&self, p: PointI32) -> int {
        let w = self.spec_width();
        let h = self.spec_height();
        if p.y == self.top && p.x < self.right {
            p.x - self.left
        } else if p.x == self.right && p.y < self.bottom {
            w + (p.y - self.top)
        } else if p.y == self.bottom && p.x > self.left {
            w + h + (self.right - p.x)
        } else {
            2 * w + h + (self.bottom - p.y)
        }
    }

    /// The boundary as a cyclic sequence that starts at the boundary point `p`.
    pub open spec fn boundary_from(&self, p: PointI32) -> Seq<PointI32> {
        Seq::new(
            self.perimeter() as nat,
            |i: int| self.boundary_point((self.boundary_index(p) + i) % self.perimeter()),
        )
    }

    /// The point next to the boundary point `p` that lies outside the
    /// rectangle; at a corner, the diagonal one.
    pub open spec fn closest_outside(&self, p: PointI32) -> PointI32 {
        PointI32 {
            x: (p.x + if p.x == self.left {
                -1int
            } else if p.x == self.right {
                1int
            } else {
                0int
            }) as i32,
            y: (p.y + if p.y == self.top {
                -1int
            } else if p.y == self.bottom {
                1int
            } else {
                0int
            }) as i32,
        }
    }

    /// The point next to the boundary point `p` that lies inside the
    /// rectangle; at a corner, the diagonal one.
    pub open spec fn closest_inside(&self, p: PointI32) -> PointI32 {
        PointI32 {
            x: (p.x + if p.x == self.left {
                1int
            } else if p.x == self.right {
                -1int
            } else {
                0int
            }) as i32,
            y: (p.y + if p.y == self.top {
                1int
            } else if p.y == self.bottom {
                -1int
            } else {
                0int
            }) as i32,
        }
    }

    /// Whether the rectangle is well-formed.
    pub fn is_well_formed(&self) -> (ok: bool)
        ensures
            ok == self.well_formed(),
    {
        let width: i64 = self.right as i64 - self.left as i64;
        let height: i64 = self.bottom as i64 - self.top as i64;
        if width < 2 || height < 2 || width > i32::MAX as i64 || height > i32::MAX as i64 {
            proof {
                if width >= 2 && height >= 2 {
                    assert(width * height > i32::MAX) by (nonlinear_arith)
                        requires
                            width >= 2,
                            height >= 2,
                            width > i32::MAX || height > i32::MAX,
                    ;
                }
            }
            return false;
        }
        assert(width * height <= 0x7fff_ffff * 0x7fff_ffff) by (nonlinear_arith)
            requires
                0 <= width <= 0x7fff_ffff,
                0 <= height <= 0x7fff_ffff,
        ;
        width * height <= i32::MAX as i64 && self.left > i32::MIN && self.top > i32::MIN
            && self.right < i32::MAX && self.bottom < i32::MAX
    }

    /// `right - left`.
    pub fn width(&self) -> (w: i32)
        requires
            i32::MIN <= self.spec_width() <= i32::MAX,
        ensures
            w == self.spec_width(),
    {
        self.right - self.left
    }

    /// `bottom - top`.
    pub fn height(&self) -> (h: i32)
        requires
            i32::MIN <= self.spec_height() <= i32::MAX,
        ensures
            h == self.spec_height(),
    {
        self.bottom - self.top
    }

    pub fn top_left(&self) -> (p: PointI32)
        ensures
            p == (PointI32 { x: self.left, y: self.top }),
    {
        PointI32 { x: self.left, y: self.top }
    }

    pub fn top_right(&self) -> (p: PointI32)
        ensures
            p == (PointI32 { x: self.right, y: self.top }),
    {
        PointI32 { x: self.right, y: self.top }
    }

    pub fn bottom_left(&self) -> (p: PointI32)
        ensures
            p == (PointI32 { x: self.left, y: self.bottom }),
    {
        PointI32 { x: self.left, y: self.bottom }
    }

    pub fn bottom_right(&self) -> (p: PointI32)
        ensures
            p == (PointI32 { x: self.right, y: self.bottom }),
    {
        PointI32 { x: self.right, y: self.bottom }
    }
}

/// The boundary of a well-formed rectangle holds at most `2^31 + 2` points.
pub proof fn lemma_perimeter_bound(rect: BoundingRect)
    requires
        rect.well_formed(),
    ensures
        8 <= rect.perimeter() <= 0x8000_0002,
        rect.spec_width() <= 0x3fff_ffff,
        rect.spec_height() <= 0x3fff_ffff,
{
    let w = rect.spec_width();
    let h = rect.spec_height();
    assert(2 * w <= w * h && 2 * h <= w * h && (w - 2) * (h - 2) >= 0) by (nonlinear_arith)
        requires
            w >= 2,
            h >= 2,
    ;
    assert(w * h == (w - 2) * (h - 2) + 2 * w + 2 * h - 4) by (nonlinear_arith);
}

/// Every point that `boundary_point` counts lies on the boundary.
pub proof fn lemma_boundary_point_on_boundary(rect: BoundingRect, k: int)
    requires
        rect.well_formed(),
        0 <= k < rect.perimeter(),
    ensures
        rect.on_boundary(rect.boundary_point(k)),
        rect.boundary_index(rect.boundary_point(k)) == k,
{
    lemma_perimeter_bound(rect);
}

/// `boundary_point` counts every point of the boundary.
pub proof fn lemma_boundary_index(rect: BoundingRect, p: PointI32)
    requires
        rect.well_formed(),
        rect.on_boundary(p),
    ensures
        0 <= rect.boundary_index(p) < rect.perimeter(),
        rect.boundary_point(rect.boundary_index(p)) == p,
{
    lemma_perimeter_bound(rect);
}

/// The boundary from `p` starts at `p`, and each of its points is on the
/// boundary.
pub proof fn lemma_boundary_from(rect: BoundingRect, p: PointI32)
    requires
        rect.well_formed(),
        rect.on_boundary(p),
    ensures
        rect.boundary_from(p).len() == rect.perimeter(),
        rect.boundary_from(p)[0] == p,
        forall|i: int|
            0 <= i < rect.perimeter() ==> rect.on_boundary(#[trigger] rect.boundary_from(p)[i]),
{
    lemma_perimeter_bound(rect);
    lemma_boundary_index(rect, p);
    let n = rect.perimeter();
    let start = rect.boundary_index(p);
    vstd::arithmetic::div_mod::lemma_small_mod(start as nat, n as nat);
    assert forall|i: int| 0 <= i < n implies rect.on_boundary(
        #[trigger] rect.boundary_from(p)[i],
    ) by {
        vstd::arithmetic::div_mod::lemma_mod_bound(start + i, n);
        lemma_boundary_point_on_boundary(rect, (start + i) % n);
    }
}

/// Calls `BoundingRect::have_point_on_boundary` of visioncortex with tolerance
/// zero, which compares `p` with the four sides and nothing else.
#[verifier::external_body]
pub(crate) fn have_point_on_boundary(rect: &BoundingRect, p: PointI32) -> (on: bool)
    ensures
        on == rect.on_boundary(p),
{
    let r = visioncortex::BoundingRect {
        left: rect.left,
        top: rect.top,
        right: rect.right,
        bottom: rect.bottom,
    };
    r.have_point_on_boundary(visioncortex::PointI32::new(p.x, p.y), 0)
}

/// Calls `BoundingRect::get_closest_point_outside` of visioncortex, which
/// asserts that `p` is on the boundary and moves it one unit away from each
/// side that it lies on.
#[verifier::external_body]
pub(crate) fn get_closest_point_outside(rect: &BoundingRect, p: PointI32) -> (q: PointI32)
    requires
        rect.well_formed(),
        rect.on_boundary(p),
    ensures
        q == rect.closest_outside(p),
{
    let r = visioncortex::BoundingRect {
        left: rect.left,
        top: rect.top,
        right: rect.right,
        bottom: rect.bottom,
    };
    let q = r.get_closest_point_outside(visioncortex::PointI32::new(p.x, p.y));
    PointI32 { x: q.x, y: q.y }
}

/// Calls `BoundingRect::get_closest_point_inside` of visioncortex, which
/// asserts that `p` is on the boundary and that the area exceeds one, and
/// moves `p` one unit towards the inside from each side that it lies on.
#[verifier::external_body]
pub(crate) fn get_closest_point_inside(rect: &BoundingRect, p: PointI32) -> (q: PointI32)
    requires
        rect.well_formed(),
        rect.on_boundary(p),
    ensures
        q == rect.closest_inside(p),
{
    let r = visioncortex::BoundingRect {
        left: rect.left,
        top: rect.top,
        right: rect.right,
        bottom: rect.bottom,
    };
    let q = r.get_closest_point_inside(visioncortex::PointI32::new(p.x, p.y));
    PointI32 { x: q.x, y: q.y }
}

/// Calls `BoundingRect::get_boundary_points_from` of visioncortex in its
/// clockwise orientation. It starts at `p` and steps from each boundary point
/// to the neighbour on the boundary that it did not come from; on a
/// well-formed rectangle that is the whole boundary, once, in the order of
/// `boundary_point`.
#[verifier::external_body]
pub(crate) fn get_boundary_points_from(rect: &BoundingRect, p: PointI32) -> (points: Vec<PointI32>)
    requires
        rect.well_formed(),
        rect.on_boundary(p),
    ensures
        points@ == rect.boundary_from(p),
{
    let r = visioncortex::BoundingRect {
        left: rect.left,
        top: rect.top,
        right: rect.right,
        bottom: rect.bottom,
    };
    let walk = r.get_boundary_points_from(visioncortex::PointI32::new(p.x, p.y), true);
    walk.into_iter().map(|q| PointI32 { x: q.x, y: q.y }).collect()
}

} // verus!
