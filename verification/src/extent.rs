//! Axis-aligned bounding boxes over grid points.

use vstd::prelude::*;

verus! {

/// A position on the projection grid.
#[derive(Clone, Copy, Debug, PartialEq, Eq, Structural)]
pub struct Point {
    pub x: i64,
    pub y: i64,
}

/// An axis-aligned bounding box.
///
/// A box in which a lower bound lies above its upper bound holds no point;
/// the box returned for an empty point set has this shape, with every bound
/// at the far end of the range.
#[allow(non_snake_case)]
#[derive(Clone, Copy, Debug, PartialEq, Eq, Structural)]
pub struct LayerExtent {
    pub MinX: i64,
    pub MaxX: i64,
    pub MinY: i64,
    pub MaxY: i64,
}

impl LayerExtent {
    /// The box that holds no point and is the unit of `stretch`.
    pub open spec fn nothing() -> LayerExtent {
        LayerExtent { MinX: i64::MAX, MaxX: i64::MIN, MinY: i64::MAX, MaxY: i64::MIN }
    }

    /// No point lies inside.
    pub open spec fn is_empty(self) -> bool {
        self.MinX > self.MaxX || self.MinY > self.MaxY
    }

    /// `p` lies inside, edges included.
    pub open spec fn contains(self, p: Point) -> bool {
        self.MinX <= p.x <= self.MaxX && self.MinY <= p.y <= self.MaxY
    }

    /// Every bound of `self` is at least as far out as that of `inner`.
    pub open spec fn covers(self, inner: LayerExtent) -> bool {
        &&& self.MinX <= inner.MinX
        &&& self.MaxX >= inner.MaxX
        &&& self.MinY <= inner.MinY
        &&& self.MaxY >= inner.MaxY
    }

    /// The box stretched just far enough to hold `p` as well.
    pub open spec fn stretch(self, p: Point) -> LayerExtent {
        LayerExtent {
            MinX: if p.x < self.MinX { p.x } else { self.MinX },
            MaxX: if p.x > self.MaxX { p.x } else { self.MaxX },
            MinY: if p.y < self.MinY { p.y } else { self.MinY },
            MaxY: if p.y > self.MaxY { p.y } else { self.MaxY },
        }
    }

    /// Width times height, both taken without sign.
    pub open spec fn area(self) -> nat {
        let w = self.MaxX - self.MinX;
        let h = self.MaxY - self.MinY;
        ((if w < 0 { -w } else { w }) * (if h < 0 { -h } else { h })) as nat
    }

    /// The box with no point in it.
    pub fn empty() -> (e: LayerExtent)
        ensures
            e == LayerExtent::nothing(),
            e.is_empty(),
    {
        LayerExtent { MinX: i64::MAX, MaxX: i64::MIN, MinY: i64::MAX, MaxY: i64::MIN }
    }

    /// Whether the box holds no point.
    pub fn has_no_points(&self) -> (b: bool)
        ensures
            b == self.is_empty(),
    {
        self.MinX > self.MaxX || self.MinY > self.MaxY
    }

    /// The box stretched to hold `p`.
    pub fn with_point(&self, p: Point) -> (e: LayerExtent)
        ensures
            e == self.stretch(p),
    {
        LayerExtent {
            MinX: if p.x < self.MinX { p.x } else { self.MinX },
            MaxX: if p.x > self.MaxX { p.x } else { self.MaxX },
            MinY: if p.y < self.MinY { p.y } else { self.MinY },
            MaxY: if p.y > self.MaxY { p.y } else { self.MaxY },
        }
    }
}

/// The bounding box of a point sequence: the empty box stretched by each
/// point in turn.
pub open spec fn extent_of(points: Seq<Point>) -> LayerExtent
    decreases points.len(),
{
    if points.len() == 0 {
        LayerExtent::nothing()
    } else {
        extent_of(points.drop_last()).stretch(points.last())
    }
}

/// Two boxes collide unless one lies wholly above, below, left or right of
/// the other. Boxes that only share an edge collide.
pub open spec fn collides(a: LayerExtent, b: LayerExtent) -> bool {
    !(b.MinY > a.MaxY || b.MaxY < a.MinY || b.MaxX < a.MinX || b.MinX > a.MaxX)
}

/// Whether `extent2` collides with `extent1`.
pub fn does_envelope_collide(extent1: &LayerExtent, extent2: &LayerExtent) -> (hit: bool)
    ensures
        hit == collides(*extent1, *extent2),
{
    if extent2.MinY > extent1.MaxY {
        return false;
    }
    if extent2.MaxY < extent1.MinY {
        return false;
    }
    if extent2.MaxX < extent1.MinX {
        return false;
    }
    if extent2.MinX > extent1.MaxX {
        return false;
    }
    true
}

/// The bounding box of `points`; the empty box when there are none.
pub fn get_points_extent(points: &Vec<Point>) -> (e: LayerExtent)
    ensures
        e == extent_of(points@),
{
    let mut e = LayerExtent::empty();
    let mut i: usize = 0;
    while i < points.len()
        invariant
            i <= points.len(),
            e == extent_of(points@.take(i as int)),
        decreases points.len() - i,
    {
        proof {
            assert(points@.take(i + 1).drop_last() =~= points@.take(i as int));
        }
        e = e.with_point(points[i]);
        i += 1;
    }
    proof {
        assert(points@.take(i as int) =~= points@);
    }
    e
}

/// The area of a box: width times height, each without its sign.
pub fn get_extent_area(extent: &LayerExtent) -> (a: u128)
    ensures
        a == extent.area(),
{
    let w: i128 = extent.MaxX as i128 - extent.MinX as i128;
    let h: i128 = extent.MaxY as i128 - extent.MinY as i128;
    let w_abs: u128 = if w < 0 { (-w) as u128 } else { w as u128 };
    let h_abs: u128 = if h < 0 { (-h) as u128 } else { h as u128 };
    assert(w_abs * h_abs <= u128::MAX) by (nonlinear_arith)
        requires
            w_abs <= 0xffff_ffff_ffff_ffff,
            h_abs <= 0xffff_ffff_ffff_ffff,
    ;
    w_abs * h_abs
}

/// Collision does not depend on the order of the two boxes.
pub proof fn lemma_collides_symmetric(a: LayerExtent, b: LayerExtent)
    ensures
        collides(a, b) == collides(b, a),
{
}

/// Two boxes that hold points collide exactly when some point lies in both.
pub proof fn lemma_collides_iff_shared_point(a: LayerExtent, b: LayerExtent)
    requires
        !a.is_empty(),
        !b.is_empty(),
    ensures
        collides(a, b) <==> exists|p: Point| a.contains(p) && b.contains(p),
{
    if collides(a, b) {
        let p = Point {
            x: if a.MinX > b.MinX { a.MinX } else { b.MinX },
            y: if a.MinY > b.MinY { a.MinY } else { b.MinY },
        };
        assert(a.contains(p) && b.contains(p));
    }
}

/// Folding one more point into a box never pulls a bound inwards.
pub proof fn lemma_stretch_covers(e: LayerExtent, p: Point)
    ensures
        e.stretch(p).covers(e),
        e.stretch(p).contains(p),
{
}

/// The box of the first `n + 1` points covers the box of the first `n`.
pub proof fn lemma_extent_grows(points: Seq<Point>, p: Point)
    ensures
        extent_of(points.push(p)) == extent_of(points).stretch(p),
        extent_of(points.push(p)).covers(extent_of(points)),
{
    assert(points.push(p).drop_last() =~= points);
}

/// The box of a sequence covers the box of each of its prefixes.
pub proof fn lemma_extent_covers_prefix(points: Seq<Point>, n: int)
    requires
        0 <= n <= points.len(),
    ensures
        extent_of(points).covers(extent_of(points.take(n))),
    decreases points.len(),
{
    if n == points.len() {
        assert(points.take(n) =~= points);
    } else {
        lemma_extent_covers_prefix(points.drop_last(), n);
        assert(points.drop_last().take(n) =~= points.take(n));
    }
}

/// Every point of a sequence lies in its box, and each bound of the box of a
/// sequence that is not empty is reached by one of its points.
pub proof fn lemma_extent_is_tight(points: Seq<Point>)
    ensures
        forall|i: int| 0 <= i < points.len() ==> extent_of(points).contains(#[trigger] points[i]),
        points.len() > 0 ==> {
            &&& exists|i: int| 0 <= i < points.len() && #[trigger] points[i].x == extent_of(points).MinX
            &&& exists|i: int| 0 <= i < points.len() && #[trigger] points[i].x == extent_of(points).MaxX
            &&& exists|i: int| 0 <= i < points.len() && #[trigger] points[i].y == extent_of(points).MinY
            &&& exists|i: int| 0 <= i < points.len() && #[trigger] points[i].y == extent_of(points).MaxY
        },
        points.len() > 0 ==> !extent_of(points).is_empty(),
    decreases points.len(),
{
    if points.len() > 0 {
        let front = points.drop_last();
        let last = points.last();
        lemma_extent_is_tight(front);
        let e = extent_of(points);
        let f = extent_of(front);
        assert forall|i: int| 0 <= i < points.len() implies e.contains(#[trigger] points[i]) by {
            if i < front.len() {
                assert(front[i] == points[i]);
                assert(f.contains(front[i]));
            }
        }
        let n = points.len() - 1;
        if front.len() == 0 {
            assert(points[n].x == e.MinX && points[n].x == e.MaxX);
            assert(points[n].y == e.MinY && points[n].y == e.MaxY);
        } else {
            let ix0 = choose|i: int| 0 <= i < front.len() && #[trigger] front[i].x == f.MinX;
            let ix1 = choose|i: int| 0 <= i < front.len() && #[trigger] front[i].x == f.MaxX;
            let iy0 = choose|i: int| 0 <= i < front.len() && #[trigger] front[i].y == f.MinY;
            let iy1 = choose|i: int| 0 <= i < front.len() && #[trigger] front[i].y == f.MaxY;
            assert(points[ix0] == front[ix0] && points[ix1] == front[ix1]);
            assert(points[iy0] == front[iy0] && points[iy1] == front[iy1]);
            let jx0 = if last.x < f.MinX { n } else { ix0 };
            let jx1 = if last.x > f.MaxX { n } else { ix1 };
            let jy0 = if last.y < f.MinY { n } else { iy0 };
            let jy1 = if last.y > f.MaxY { n } else { iy1 };
            assert(points[jx0].x == e.MinX);
            assert(points[jx1].x == e.MaxX);
            assert(points[jy0].y == e.MinY);
            assert(points[jy1].y == e.MaxY);
        }
    }
}

} // verus!
