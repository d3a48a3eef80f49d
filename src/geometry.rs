use vstd::prelude::*;

verus! {

/// An axis-aligned box given by its center, width and height. All four
/// values are in millionths of a percent of the image's size, so that
/// `50_000_000` is the middle of the image.
#[derive(Clone, Copy, Debug, PartialEq, Eq, Structural)]
pub struct BoundingBox {
    pub xc: i32,
    pub yc: i32,
    pub w: i32,
    pub h: i32,
}

/// Numerator and denominator of the overlap ratio at and above which one box
/// suppresses another: seven tenths.
pub const IOU_THRESHOLD_NUM: i128 = 7;

pub const IOU_THRESHOLD_DEN: i128 = 10;

/// Length of the overlap of two intervals, each given by its center `c` and
/// its extent `e`, measured on the doubled axis (both ends multiplied by two,
/// so that a half extent stays whole). Zero when they do not meet.
pub open spec fn overlap2(ac: int, ae: int, bc: int, be: int) -> int {
    let lo = if 2 * ac - ae >= 2 * bc - be { 2 * ac - ae } else { 2 * bc - be };
    let hi = if 2 * ac + ae <= 2 * bc + be { 2 * ac + ae } else { 2 * bc + be };
    if hi > lo { hi - lo } else { 0 }
}

impl BoundingBox {
    /// Four times the area that the two boxes share.
    pub open spec fn spec_intersection(self, other: BoundingBox) -> int {
        overlap2(self.xc as int, self.w as int, other.xc as int, other.w as int)
            * overlap2(self.yc as int, self.h as int, other.yc as int, other.h as int)
    }

    /// Four times the box's own area.
    pub open spec fn spec_area(self) -> int {
        4 * ((self.w as int) * (self.h as int))
    }

    /// Four times the area that the two boxes cover together.
    pub open spec fn spec_union(self, other: BoundingBox) -> int {
        self.spec_area() + other.spec_area() - self.spec_intersection(other)
    }

    /// Intersection over union as a fraction; `0/1` where the union has no
    /// positive area, so that a box without area overlaps nothing.
    pub open spec fn spec_iou(self, other: BoundingBox) -> (int, int) {
        if self.spec_union(other) > 0 {
            (self.spec_intersection(other), self.spec_union(other))
        } else {
            (0, 1)
        }
    }

    /// Whether this box's overlap ratio with `other` reaches the threshold.
    pub open spec fn spec_suppresses(self, other: BoundingBox) -> bool {
        let (n, d) = self.spec_iou(other);
        IOU_THRESHOLD_DEN * n >= IOU_THRESHOLD_NUM * d
    }

    /// Four times the area shared with `other`.
    pub fn intersection(&self, other: &BoundingBox) -> (r: i128)
        ensures
            r == self.spec_intersection(*other),
            r >= 0,
    {
        let ox = overlap2_exec(self.xc, self.w, other.xc, other.w);
        let oy = overlap2_exec(self.yc, self.h, other.yc, other.h);
        proof {
            lemma_product_bound(ox as int, oy as int);
        }
        (ox as i128) * (oy as i128)
    }

    /// Four times the area covered by this box and `other` together.
    pub fn union(&self, other: &BoundingBox) -> (r: i128)
        ensures
            r == self.spec_union(*other),
    {
        let a = area4(self);
        let b = area4(other);
        let i = self.intersection(other);
        proof {
            lemma_product_bound(overlap2(self.xc as int, self.w as int, other.xc as int, other.w as int),
                overlap2(self.yc as int, self.h as int, other.yc as int, other.h as int));
        }
        a + b - i
    }

    /// Intersection over union, as numerator and denominator.
    pub fn iou(&self, other: &BoundingBox) -> (r: (i128, i128))
        ensures
            r.0 == self.spec_iou(*other).0,
            r.1 == self.spec_iou(*other).1,
    {
        let u = self.union(other);
        if u > 0 {
            (self.intersection(other), u)
        } else {
            (0, 1)
        }
    }

    /// Whether this box's overlap with `other` reaches the suppression
    /// threshold.
    pub fn suppresses(&self, other: &BoundingBox) -> (r: bool)
        ensures
            r == self.spec_suppresses(*other),
    {
        let (n, d) = self.iou(other);
        proof {
            lemma_iou_bound(*self, *other);
        }
        IOU_THRESHOLD_DEN * n >= IOU_THRESHOLD_NUM * d
    }
}

const OVERLAP_MAX: i64 = 0x4_0000_0000;

proof fn lemma_product_bound(x: int, y: int)
    requires
        0 <= x <= OVERLAP_MAX,
        0 <= y <= OVERLAP_MAX,
    ensures
        0 <= x * y <= OVERLAP_MAX * OVERLAP_MAX,
{
    assert(0 <= x * y <= OVERLAP_MAX * OVERLAP_MAX) by (nonlinear_arith)
        requires
            0 <= x <= OVERLAP_MAX,
            0 <= y <= OVERLAP_MAX,
    ;
}

proof fn lemma_area_bound(b: BoundingBox)
    ensures
        -0x1_0000_0000_0000_0000 <= b.spec_area() <= 0x1_0000_0000_0000_0000,
{
    let w = b.w as int;
    let h = b.h as int;
    assert(-0x4000_0000_0000_0000 <= w * h <= 0x4000_0000_0000_0000) by (nonlinear_arith)
        requires
            -0x8000_0000 <= w < 0x8000_0000,
            -0x8000_0000 <= h < 0x8000_0000,
    ;
}

proof fn lemma_iou_bound(a: BoundingBox, b: BoundingBox)
    ensures
        -0x1_0000_0000_0000_0000_0000 <= a.spec_iou(b).0 <= 0x1_0000_0000_0000_0000_0000,
        -0x1_0000_0000_0000_0000_0000 <= a.spec_iou(b).1 <= 0x1_0000_0000_0000_0000_0000,
{
    lemma_area_bound(a);
    lemma_area_bound(b);
    lemma_overlap_bound(a.xc as int, a.w as int, b.xc as int, b.w as int);
    lemma_overlap_bound(a.yc as int, a.h as int, b.yc as int, b.h as int);
    lemma_product_bound(overlap2(a.xc as int, a.w as int, b.xc as int, b.w as int),
        overlap2(a.yc as int, a.h as int, b.yc as int, b.h as int));
}

proof fn lemma_overlap_bound(ac: int, ae: int, bc: int, be: int)
    requires
        i32::MIN <= ac <= i32::MAX,
        i32::MIN <= ae <= i32::MAX,
        i32::MIN <= bc <= i32::MAX,
        i32::MIN <= be <= i32::MAX,
    ensures
        0 <= overlap2(ac, ae, bc, be) <= OVERLAP_MAX,
{
}

fn area4(b: &BoundingBox) -> (r: i128)
    ensures
        r == b.spec_area(),
        -0x1_0000_0000_0000_0000 <= r <= 0x1_0000_0000_0000_0000,
{
    proof {
        lemma_area_bound(*b);
    }
    4 * ((b.w as i128) * (b.h as i128))
}

fn overlap2_exec(ac: i32, ae: i32, bc: i32, be: i32) -> (r: i64)
    ensures
        r == overlap2(ac as int, ae as int, bc as int, be as int),
        0 <= r <= OVERLAP_MAX,
{
    let alo = 2 * (ac as i64) - (ae as i64);
    let ahi = 2 * (ac as i64) + (ae as i64);
    let blo = 2 * (bc as i64) - (be as i64);
    let bhi = 2 * (bc as i64) + (be as i64);
    let lo = if alo >= blo { alo } else { blo };
    let hi = if ahi <= bhi { ahi } else { bhi };
    if hi > lo { hi - lo } else { 0 }
}

/// A box with positive width and height overlaps itself completely: its
/// intersection over union with itself is one.
pub proof fn lemma_iou_identical(b: BoundingBox)
    requires
        b.w > 0,
        b.h > 0,
    ensures
        b.spec_iou(b).0 == b.spec_iou(b).1,
        b.spec_iou(b).1 > 0,
        b.spec_suppresses(b),
{
    let w = b.w as int;
    let h = b.h as int;
    assert(overlap2(b.xc as int, w, b.xc as int, w) == 2 * w);
    assert(overlap2(b.yc as int, h, b.yc as int, h) == 2 * h);
    assert((2 * w) * (2 * h) == 4 * (w * h)) by (nonlinear_arith);
    assert(w * h > 0) by (nonlinear_arith)
        requires
            w > 0,
            h > 0,
    ;
}

/// Boxes that lie apart, side by side or one above the other, do not
/// overlap: their intersection over union is zero.
pub proof fn lemma_iou_disjoint(a: BoundingBox, b: BoundingBox)
    requires
        2 * a.xc + a.w <= 2 * b.xc - b.w || 2 * b.xc + b.w <= 2 * a.xc - a.w || 2 * a.yc + a.h
            <= 2 * b.yc - b.h || 2 * b.yc + b.h <= 2 * a.yc - a.h,
    ensures
        a.spec_iou(b).0 == 0,
        !a.spec_suppresses(b),
        !b.spec_suppresses(a),
{
    lemma_no_overlap_no_iou(a, b);
}

/// A box without area (zero width or zero height) overlaps nothing: its
/// intersection over union with any box is zero, either way round, and it
/// neither suppresses nor is suppressed.
pub proof fn lemma_iou_zero_area(a: BoundingBox, b: BoundingBox)
    requires
        a.w == 0 || a.h == 0,
    ensures
        a.spec_iou(b).0 == 0,
        b.spec_iou(a).0 == 0,
        !a.spec_suppresses(b),
        !b.spec_suppresses(a),
{
    lemma_no_overlap_no_iou(a, b);
}

proof fn lemma_no_overlap_no_iou(a: BoundingBox, b: BoundingBox)
    requires
        overlap2(a.xc as int, a.w as int, b.xc as int, b.w as int) == 0 || overlap2(
            a.yc as int,
            a.h as int,
            b.yc as int,
            b.h as int,
        ) == 0,
    ensures
        a.spec_iou(b).0 == 0,
        b.spec_iou(a).0 == 0,
        !a.spec_suppresses(b),
        !b.spec_suppresses(a),
{
    assert(overlap2(a.xc as int, a.w as int, b.xc as int, b.w as int) == overlap2(
        b.xc as int,
        b.w as int,
        a.xc as int,
        a.w as int,
    ));
    assert(overlap2(a.yc as int, a.h as int, b.yc as int, b.h as int) == overlap2(
        b.yc as int,
        b.h as int,
        a.yc as int,
        a.h as int,
    ));
    assert(a.spec_intersection(b) == 0);
    assert(b.spec_intersection(a) == 0);
}

} // verus!
