//! Axis-aligned pixel rectangles: border and interior traversal, trisection
//! along the longer axis, and squared distance from a point, used as the
//! scheduling priority of dirty regions.

use vstd::prelude::*;

verus! {

/// Largest magnitude allowed for a rectangle corner coordinate.
pub const MAX_COORD: i32 = 0x3fff_ffff;

/// Largest width or height allowed for a rectangle.
pub const MAX_DIM: i32 = 0x2000_0000;

/// A rectangle in image pixel coordinates. `w` and `h` are never negative.
#[derive(Clone, Copy, Debug, PartialEq, Eq, Structural, Hash)]
pub struct RectRegion {
    pub x0: i32,
    pub y0: i32,
    pub w: i32,
    pub h: i32,
}

/// Row-major traversal of a `w`-wide grid anchored at `(x0, y0)`, `len`
/// points in all; `i` is the cursor.
#[derive(Debug)]
pub struct RangeRect {
    pub x0: i32,
    pub y0: i32,
    pub w: i32,
    pub len: i32,
    pub i: i32,
}

/// Clockwise traversal of the one-pixel-wide outer ring of a rectangle,
/// starting at the top-left corner; `i` is the cursor.
pub struct RectRegionBorder<'parent> {
    pub parent: &'parent RectRegion,
    pub i: i32,
    pub maxi_w: i32,
    pub maxi_h: i32,
}

impl RectRegion {
    /// Coordinates and dimensions within the bounds that keep all the
    /// arithmetic of this module inside `i32` and `i64`.
    pub open spec fn wf(self) -> bool {
        &&& -MAX_COORD <= self.x0 <= MAX_COORD
        &&& -MAX_COORD <= self.y0 <= MAX_COORD
        &&& 0 <= self.w <= MAX_DIM
        &&& 0 <= self.h <= MAX_DIM
        &&& self.x0 + self.w <= MAX_COORD + 1
        &&& self.y0 + self.h <= MAX_COORD + 1
    }

    /// Number of points on the border ring.
    pub open spec fn border_len(self) -> int {
        if self.w == 0 || self.h == 0 {
            0
        } else if self.w == 1 {
            self.h as int
        } else if self.h == 1 {
            self.w as int
        } else {
            2 * (self.w - 1) + 2 * (self.h - 1)
        }
    }

    /// The `i`-th border point, clockwise from the top-left corner. For a
    /// single row or column it is simply the `i`-th point of the line.
    pub open spec fn border_point(self, i: int) -> (int, int)
        recommends
            0 <= i < self.border_len(),
    {
        let mw = self.w - 1;
        let mh = self.h - 1;
        if self.w == 1 {
            (self.x0 as int, self.y0 + i)
        } else if self.h == 1 {
            (self.x0 + i, self.y0 as int)
        } else if i < mw {
            (self.x0 + i, self.y0 as int)
        } else if i < mw + mh {
            (self.x0 + mw, self.y0 + (i - mw))
        } else if i < mw + mh + mw {
            (self.x0 + mw - (i - mw - mh), self.y0 + mh)
        } else {
            (self.x0 as int, self.y0 + mh - (i - mw - mh - mw))
        }
    }

    /// All border points in clockwise order.
    pub open spec fn border_seq(self) -> Seq<(int, int)> {
        Seq::new(self.border_len() as nat, |i: int| self.border_point(i))
    }

    /// Width of the interior, one pixel in from each side.
    pub open spec fn interior_w(self) -> int {
        if self.w >= 2 {
            self.w - 2
        } else {
            0
        }
    }

    /// Height of the interior, one pixel in from each side.
    pub open spec fn interior_h(self) -> int {
        if self.h >= 2 {
            self.h - 2
        } else {
            0
        }
    }

    /// Number of interior points.
    pub open spec fn spec_interior_len(self) -> int {
        self.interior_w() * self.interior_h()
    }

    /// All interior points, row-major.
    pub open spec fn interior_seq(self) -> Seq<(int, int)> {
        grid_seq(self.x0 + 1, self.y0 + 1, self.interior_w(), self.spec_interior_len())
    }

    /// Squared Euclidean distance from the point to the rectangle: zero for a
    /// point inside it, otherwise measured to the nearest edge or corner.
    pub open spec fn spec_squared_distance_to(self, x: int, y: int) -> int {
        if x >= self.x0 && x - self.x0 < self.w && y >= self.y0 && y - self.y0 < self.h {
            0
        } else {
            let dx = if x < self.x0 {
                self.x0 - x
            } else if x > self.x0 + self.w {
                x - self.x0 - self.w
            } else {
                0
            };
            let dy = if y < self.y0 {
                self.y0 - y
            } else if y >= self.y0 + self.h {
                y - self.y0 - self.h
            } else {
                0
            };
            dx * dx + dy * dy
        }
    }

    /// The three sub-rectangles that a trisection yields: the interior split
    /// along its longer axis into parts whose sizes differ by at most one.
    pub open spec fn spec_trisect(self) -> Option<(RectRegion, RectRegion, RectRegion)> {
        if self.spec_interior_len() > 0 {
            if self.w >= self.h {
                let w1 = (self.w - 2) / 3;
                let w2 = ((self.w - 2) - w1) / 2;
                let w3 = (self.w - 2) - w1 - w2;
                Some(
                    (
                        RectRegion { x0: (self.x0 + 1) as i32, y0: (self.y0 + 1) as i32, w: w1 as i32, h: (self.h - 2) as i32 },
                        RectRegion { x0: (self.x0 + 1 + w1) as i32, y0: (self.y0 + 1) as i32, w: w2 as i32, h: (self.h - 2) as i32 },
                        RectRegion { x0: (self.x0 + 1 + w1 + w2) as i32, y0: (self.y0 + 1) as i32, w: w3 as i32, h: (self.h - 2) as i32 },
                    ),
                )
            } else {
                let h1 = (self.h - 2) / 3;
                let h2 = ((self.h - 2) - h1) / 2;
                let h3 = (self.h - 2) - h1 - h2;
                Some(
                    (
                        RectRegion { x0: (self.x0 + 1) as i32, y0: (self.y0 + 1) as i32, w: (self.w - 2) as i32, h: h1 as i32 },
                        RectRegion { x0: (self.x0 + 1) as i32, y0: (self.y0 + 1 + h1) as i32, w: (self.w - 2) as i32, h: h2 as i32 },
                        RectRegion { x0: (self.x0 + 1) as i32, y0: (self.y0 + 1 + h1 + h2) as i32, w: (self.w - 2) as i32, h: h3 as i32 },
                    ),
                )
            }
        } else {
            None
        }
    }

    /// Build a rectangle, clamping negative dimensions to zero.
    pub fn new(x0: i32, y0: i32, w: i32, h: i32) -> (r: RectRegion)
        requires
            -MAX_COORD <= x0 <= MAX_COORD,
            -MAX_COORD <= y0 <= MAX_COORD,
            w <= MAX_DIM,
            h <= MAX_DIM,
            x0 + w <= MAX_COORD + 1,
            y0 + h <= MAX_COORD + 1,
        ensures
            r.wf(),
            r.x0 == x0,
            r.y0 == y0,
            r.w == if w >= 0 { w } else { 0 },
            r.h == if h >= 0 { h } else { 0 },
    {
        RectRegion { x0, y0, w: if w >= 0 { w } else { 0 }, h: if h >= 0 { h } else { 0 } }
    }

    /// See `spec_squared_distance_to`.
    pub fn squared_distance_to(&self, p: (i32, i32)) -> (d: i64)
        requires
            self.wf(),
            -MAX_COORD <= p.0 <= MAX_COORD,
            -MAX_COORD <= p.1 <= MAX_COORD,
        ensures
            d == self.spec_squared_distance_to(p.0 as int, p.1 as int),
    {
        let (x, y) = p;
        if x >= self.x0 && x - self.x0 < self.w && y >= self.y0 && y - self.y0 < self.h {
            0
        } else {
            let dx: i64 = if x < self.x0 {
                self.x0 as i64 - x as i64
            } else if x as i64 > self.x0 as i64 + self.w as i64 {
                x as i64 - self.x0 as i64 - self.w as i64
            } else {
                0
            };
            let dy: i64 = if y < self.y0 {
                self.y0 as i64 - y as i64
            } else if y as i64 >= self.y0 as i64 + self.h as i64 {
                y as i64 - self.y0 as i64 - self.h as i64
            } else {
                0
            };
            proof {
                assert(dx * dx + dy * dy < i64::MAX) by (nonlinear_arith)
                    requires
                        0 <= dx <= 0x7fff_fffe && 0 <= dy <= 0x7fff_fffe,
                ;
            }
            dx * dx + dy * dy
        }
    }

    /// Traverse the border ring clockwise from the top-left corner.
    pub fn border(&self) -> (it: RectRegionBorder<'_>)
        requires
            self.wf(),
        ensures
            it.wf(),
            it.parent == self,
            it.i == 0,
    {
        RectRegionBorder::new(self)
    }

    /// Traverse the interior, row-major.
    pub fn interior(&self) -> (it: RangeRect)
        requires
            self.wf(),
            self.spec_interior_len() <= i32::MAX,
        ensures
            it.wf(),
            it.points() =~= self.interior_seq(),
            it.i == 0,
    {
        let iw: i32 = if self.w >= 2 { self.w - 2 } else { 0 };
        let ih: i32 = if self.h >= 2 { self.h - 2 } else { 0 };
        let ix: i32 = if self.w >= 2 { self.x0 + 1 } else { self.x0 };
        let iy: i32 = if self.h >= 2 { self.y0 + 1 } else { self.y0 };
        let it = RangeRect::new((ix, iw), (iy, ih));
        proof {
            assert(it.points() =~= self.interior_seq());
        }
        it
    }

    /// See `spec_interior_len`.
    pub fn interior_len(&self) -> (l: usize)
        requires
            self.wf(),
            self.spec_interior_len() <= usize::MAX,
        ensures
            l == self.spec_interior_len(),
    {
        let iw: i64 = if self.w >= 2 {
            self.w as i64 - 2
        } else {
            0
        };
        let ih: i64 = if self.h >= 2 {
            self.h as i64 - 2
        } else {
            0
        };
        proof {
            lemma_dim_product_fits(iw as int, ih as int);
        }
        (iw * ih) as usize
    }

    /// See `spec_trisect`: three children covering the interior, split along
    /// the longer axis, or nothing when the interior is empty.
    pub fn trisect(&self) -> (r: Option<(RectRegion, RectRegion, RectRegion)>)
        requires
            self.wf(),
        ensures
            r == self.spec_trisect(),
            r matches Some((r1, r2, r3)) ==> r1.wf() && r2.wf() && r3.wf(),
    {
        let iw: i64 = if self.w >= 2 {
            self.w as i64 - 2
        } else {
            0
        };
        let ih: i64 = if self.h >= 2 {
            self.h as i64 - 2
        } else {
            0
        };
        proof {
            lemma_dim_product_fits(iw as int, ih as int);
        }
        let ilen: i64 = iw * ih;
        if ilen > 0 {
            proof {
                assert(iw > 0 && ih > 0) by (nonlinear_arith)
                    requires
                        iw >= 0 && ih >= 0 && iw * ih > 0,
                ;
            }
            Some(
                if self.w >= self.h {
                    let w1 = (self.w - 2) / 3;
                    let w2 = ((self.w - 2) - w1) / 2;
                    let w3 = (self.w - 2) - w1 - w2;
                    (
                        RectRegion { x0: self.x0 + 1, y0: self.y0 + 1, w: w1, h: self.h - 2 },
                        RectRegion { x0: self.x0 + 1 + w1, y0: self.y0 + 1, w: w2, h: self.h - 2 },
                        RectRegion {
                            x0: self.x0 + 1 + w1 + w2,
                            y0: self.y0 + 1,
                            w: w3,
                            h: self.h - 2,
                        },
                    )
                } else {
                    let h1 = (self.h - 2) / 3;
                    let h2 = ((self.h - 2) - h1) / 2;
                    let h3 = (self.h - 2) - h1 - h2;
                    (
                        RectRegion { x0: self.x0 + 1, y0: self.y0 + 1, w: self.w - 2, h: h1 },
                        RectRegion { x0: self.x0 + 1, y0: self.y0 + 1 + h1, w: self.w - 2, h: h2 },
                        RectRegion {
                            x0: self.x0 + 1,
                            y0: self.y0 + 1 + h1 + h2,
                            w: self.w - 2,
                            h: h3,
                        },
                    )
                },
            )
        } else {
            None
        }
    }
}

/// Whether the pixel `(x, y)` lies in the rectangle.
pub open spec fn region_contains(r: RectRegion, x: int, y: int) -> bool {
    r.x0 <= x < r.x0 + r.w && r.y0 <= y < r.y0 + r.h
}

/// The three trisection children tile the interior of their parent: every
/// interior pixel lies in exactly one child, and no child reaches outside
/// the interior.
pub proof fn lemma_trisect_partitions_interior(region: RectRegion)
    requires
        region.wf(),
        region.spec_trisect() is Some,
    ensures
        ({
            let (r1, r2, r3) = region.spec_trisect()->0;
            &&& forall|x: int, y: int|
                #![trigger region_contains(r1, x, y)]
                #![trigger region_contains(r2, x, y)]
                #![trigger region_contains(r3, x, y)]
                {
                    &&& (region_contains(r1, x, y) || region_contains(r2, x, y)
                        || region_contains(r3, x, y)) <==> (region.x0 + 1 <= x < region.x0
                        + region.w - 1 && region.y0 + 1 <= y < region.y0 + region.h - 1)
                    &&& !(region_contains(r1, x, y) && region_contains(r2, x, y))
                    &&& !(region_contains(r2, x, y) && region_contains(r3, x, y))
                    &&& !(region_contains(r1, x, y) && region_contains(r3, x, y))
                }
        }),
{
    let iw = if region.w >= 2 {
        region.w - 2
    } else {
        0
    };
    let ih = if region.h >= 2 {
        region.h - 2
    } else {
        0
    };
    assert(iw > 0 && ih > 0) by (nonlinear_arith)
        requires
            iw >= 0 && ih >= 0 && iw * ih > 0,
    ;
    if region.w >= region.h {
        let w1 = (region.w - 2) / 3;
        let w2 = ((region.w - 2) - w1) / 2;
        assert(w1 >= 0 && w1 <= region.w - 2) by {
            vstd::arithmetic::div_mod::lemma_div_pos_is_pos(region.w - 2, 3);
            vstd::arithmetic::div_mod::lemma_div_nonincreasing(region.w - 2, 3);
        }
        assert(w2 >= 0 && w2 <= (region.w - 2) - w1) by {
            vstd::arithmetic::div_mod::lemma_div_pos_is_pos((region.w - 2) - w1, 2);
            vstd::arithmetic::div_mod::lemma_div_nonincreasing((region.w - 2) - w1, 2);
        }
    } else {
        let h1 = (region.h - 2) / 3;
        let h2 = ((region.h - 2) - h1) / 2;
        assert(h1 >= 0 && h1 <= region.h - 2) by {
            vstd::arithmetic::div_mod::lemma_div_pos_is_pos(region.h - 2, 3);
            vstd::arithmetic::div_mod::lemma_div_nonincreasing(region.h - 2, 3);
        }
        assert(h2 >= 0 && h2 <= (region.h - 2) - h1) by {
            vstd::arithmetic::div_mod::lemma_div_pos_is_pos((region.h - 2) - h1, 2);
            vstd::arithmetic::div_mod::lemma_div_nonincreasing((region.h - 2) - h1, 2);
        }
    }
}

/// A product of two interior dimensions stays far below the `i64` limit.
proof fn lemma_dim_product_fits(iw: int, ih: int)
    requires
        0 <= iw <= MAX_DIM,
        0 <= ih <= MAX_DIM,
    ensures
        0 <= iw * ih <= MAX_DIM * MAX_DIM,
{
    assert(0 <= iw * ih <= MAX_DIM * MAX_DIM) by (nonlinear_arith)
        requires
            0 <= iw <= MAX_DIM && 0 <= ih <= MAX_DIM,
    ;
}

/// The `len` points of a `w`-wide row-major grid anchored at `(x0, y0)`.
pub open spec fn grid_seq(x0: int, y0: int, w: int, len: int) -> Seq<(int, int)> {
    Seq::new(
        if len >= 0 {
            len as nat
        } else {
            0
        },
        |i: int| (x0 + i % w, y0 + i / w),
    )
}

impl RangeRect {
    /// Cursor and dimensions are in range; an empty grid has no points.
    pub open spec fn wf(self) -> bool {
        &&& 0 <= self.w <= MAX_DIM
        &&& 0 <= self.len <= i32::MAX
        &&& 0 <= self.i <= self.len
        &&& self.w == 0 ==> self.len == 0
        &&& self.len > 0 ==> {
            &&& -MAX_COORD <= self.x0
            &&& self.x0 + self.w <= MAX_COORD + 1
            &&& -MAX_COORD <= self.y0
            &&& self.y0 + (self.len - 1) / (self.w as int) + 1 <= MAX_COORD + 1
        }
    }

    /// The points this traversal yields, from the first.
    pub open spec fn points(self) -> Seq<(int, int)> {
        grid_seq(self.x0 as int, self.y0 as int, self.w as int, self.len as int)
    }

    /// Start a row-major traversal of the `w` by `h` grid anchored at
    /// `(x0, y0)`.
    pub fn new(xw: (i32, i32), yh: (i32, i32)) -> (it: RangeRect)
        requires
            0 <= xw.1 <= MAX_DIM,
            0 <= yh.1 <= MAX_DIM,
            xw.1 * yh.1 <= i32::MAX,
            xw.1 > 0 && yh.1 > 0 ==> {
                &&& -MAX_COORD <= xw.0
                &&& xw.0 + xw.1 <= MAX_COORD + 1
                &&& -MAX_COORD <= yh.0
                &&& yh.0 + yh.1 <= MAX_COORD + 1
            },
        ensures
            it.wf(),
            it.i == 0,
            it.x0 == xw.0 && it.y0 == yh.0 && it.w == xw.1,
            it.len == xw.1 * yh.1,
    {
        let (x0, w) = xw;
        let (y0, h) = yh;
        proof {
            assert(w * h >= 0) by (nonlinear_arith)
                requires
                    w >= 0 && h >= 0,
            ;
        }
        let len = w * h;
        let it = RangeRect { x0, y0, w, len, i: 0 };
        proof {
            if len > 0 {
                assert(w > 0 && h > 0) by (nonlinear_arith)
                    requires
                        w >= 0 && h >= 0 && w * h > 0,
                ;
                assert((len - 1) / (w as int) == h - 1 + (w - 1) / (w as int)) by {
                    vstd::arithmetic::div_mod::lemma_hoist_over_denominator(
                        w - 1,
                        (h - 1) as int,
                        w as nat,
                    );
                    assert((h - 1) * (w as int) == h * w - w) by (nonlinear_arith);
                }
                assert((w - 1) / (w as int) == 0) by {
                    vstd::arithmetic::div_mod::lemma_basic_div(w - 1, w as int);
                }
            }
        }
        it
    }

    /// Yield the next grid point, or nothing once all have been yielded.
    pub fn next(&mut self) -> (r: Option<(i32, i32)>)
        requires
            old(self).wf(),
        ensures
            final (self).wf(),
            final (self).x0 == old(self).x0,
            final (self).y0 == old(self).y0,
            final (self).w == old(self).w,
            final (self).len == old(self).len,
            final (self).points() == old(self).points(),
            if old(self).i < old(self).len {
                &&& r matches Some(p) && (p.0 as int, p.1 as int) == old(self).points()[old(self).i as int]
                &&& final (self).i == old(self).i + 1
            } else {
                r is None && *final (self) == *old(self)
            },
    {
        if self.i == self.len {
            None
        } else {
            proof {
                vstd::arithmetic::div_mod::lemma_remainder_lower(self.i as int, self.w as int);
                vstd::arithmetic::div_mod::lemma_remainder_upper(self.i as int, self.w as int);
                vstd::arithmetic::div_mod::lemma_div_is_ordered(
                    self.i as int,
                    self.len - 1,
                    self.w as int,
                );
                vstd::arithmetic::div_mod::lemma_div_pos_is_pos(self.i as int, self.w as int);
            }
            let q: i32 = ((self.i as i64) / (self.w as i64)) as i32;
            let m: i32 = ((self.i as i64) % (self.w as i64)) as i32;
            let y = self.y0 + q;
            let x = self.x0 + m;
            self.i = self.i + 1;
            Some((x, y))
        }
    }
}

impl<'parent> RectRegionBorder<'parent> {
    /// Cursor within range of the border ring.
    pub open spec fn wf(self) -> bool {
        &&& self.parent.wf()
        &&& self.maxi_w == if self.parent.w >= 1 {
            self.parent.w - 1
        } else {
            0
        }
        &&& self.maxi_h == if self.parent.h >= 1 {
            self.parent.h - 1
        } else {
            0
        }
        &&& 0 <= self.i <= self.parent.border_len()
    }

    /// Start a clockwise traversal of the border of `parent`.
    pub fn new(parent: &'parent RectRegion) -> (it: Self)
        requires
            parent.wf(),
        ensures
            it.wf(),
            it.parent == parent,
            it.i == 0,
    {
        Self {
            parent,
            i: 0,
            maxi_w: if parent.w >= 1 {
                parent.w - 1
            } else {
                0
            },
            maxi_h: if parent.h >= 1 {
                parent.h - 1
            } else {
                0
            },
        }
    }

    /// Yield the next border point, or nothing once the ring is complete.
    pub fn next(&mut self) -> (r: Option<(i32, i32)>)
        requires
            old(self).wf(),
        ensures
            final (self).wf(),
            final (self).parent == old(self).parent,
            if old(self).i < old(self).parent.border_len() {
                &&& r matches Some(p) && (p.0 as int, p.1 as int) == old(
                    self,
                ).parent.border_seq()[old(self).i as int]
                &&& final (self).i == old(self).i + 1
            } else {
                r is None && *final (self) == *old(self)
            },
    {
        if self.parent.w == 0 || self.parent.h == 0 {
            None
        } else if self.parent.w == 1 {
            if self.i < self.parent.h {
                let i = self.i;
                self.i = self.i + 1;
                Some((self.parent.x0, self.parent.y0 + i))
            } else {
                None
            }
        } else if self.parent.h == 1 {
            if self.i < self.parent.w {
                let i = self.i;
                self.i = self.i + 1;
                Some((self.parent.x0 + i, self.parent.y0))
            } else {
                None
            }
        } else if self.i < self.maxi_w {
            let i = self.i;
            self.i = self.i + 1;
            Some((self.parent.x0 + i, self.parent.y0))
        } else if self.i < self.maxi_w + self.maxi_h {
            let i = self.i - self.maxi_w;
            self.i = self.i + 1;
            Some((self.parent.x0 + self.maxi_w, self.parent.y0 + i))
        } else if self.i < self.maxi_w + self.maxi_h + self.maxi_w {
            let i = self.i - self.maxi_w - self.maxi_h;
            self.i = self.i + 1;
            Some((self.parent.x0 + self.maxi_w - i, self.parent.y0 + self.maxi_h))
        } else if self.i < self.maxi_w + self.maxi_h + self.maxi_w + self.maxi_h {
            let i = self.i - self.maxi_w - self.maxi_h - self.maxi_w;
            self.i = self.i + 1;
            Some((self.parent.x0, self.parent.y0 + self.maxi_h - i))
        } else {
            None
        }
    }
}

} // verus!
