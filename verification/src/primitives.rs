//! Curve analytic primitives, supplied by the kurbo geometry library and
//! trusted here: extrema and inflection parameters, line intersection,
//! parameter-range subdivision and bounding boxes.
//!
//! Curve parameters are carried as thousandths of the unit parameter
//! interval, rounded half away from zero; coordinates convert to `f64`
//! exactly and convert back by rounding half away from zero.

use vstd::prelude::*;
use kurbo::{CubicBez, ParamCurve, ParamCurveExtrema, PathSeg, QuadBez, Shape};
use kurbo::Line as KLine;
use kurbo::Point as KPoint;
use crate::geometry::{Curve, Point, Rect, curve_end, curve_start};
use crate::geometry::Curve::{Cubic, Line, Quad};

verus! {

/// Whether a curve meets the closed line segment from `a` to `b`, as
/// decided by kurbo's line-intersection primitive.
pub uninterp spec fn hits_line(c: Curve, a: Point, b: Point) -> bool;

/// Relies on kurbo::PathSeg::intersect_line: a deterministic function of
/// the control points and the probe line; the tree only asks whether any
/// intersection was found.
#[verifier::external_body]
pub(crate) fn curve_hits_line(c: &Curve, a: Point, b: Point) -> (r: bool)
    ensures
        r == hits_line(*c, a, b),
{
    let p = |q: Point| KPoint::new(q.x.into(), q.y.into());
    let seg = match *c {
        Line(u, v) => PathSeg::Line(KLine::new(p(u), p(v))),
        Quad(u, v, w) => PathSeg::Quad(QuadBez::new(p(u), p(v), p(w))),
        Cubic(u, v, w, z) => PathSeg::Cubic(CubicBez::new(p(u), p(v), p(w), p(z))),
    };
    !seg.intersect_line(KLine::new(p(a), p(b))).is_empty()
}

/// The interior extrema parameters of a quadratic curve, in thousandths.
pub uninterp spec fn quad_extrema_of(p0: Point, p1: Point, p2: Point) -> Seq<i32>;

/// Relies on kurbo::QuadBez::extrema: at most one parameter per axis, each
/// strictly inside the unit interval.
#[verifier::external_body]
pub(crate) fn quad_extrema(p0: Point, p1: Point, p2: Point) -> (r: Vec<i32>)
    ensures
        r@ == quad_extrema_of(p0, p1, p2),
        r@.len() <= 2,
        forall|i: int| 0 <= i < r@.len() ==> 0 <= #[trigger] r@[i] <= 1000,
{
    let p = |q: Point| KPoint::new(q.x.into(), q.y.into());
    let curve = QuadBez::new(p(p0), p(p1), p(p2));
    let k = KPoint::new(1000i32.into(), 0i32.into()).x;
    curve.extrema().iter().map(|t| (*t * k).round() as i32).collect()
}

/// The interior extrema parameters of a cubic curve, in thousandths,
/// in ascending order.
pub uninterp spec fn cubic_extrema_of(p0: Point, p1: Point, p2: Point, p3: Point) -> Seq<i32>;

/// Relies on kurbo::CubicBez::extrema: at most four parameters, each
/// strictly inside the unit interval, sorted ascending before return.
#[verifier::external_body]
pub(crate) fn cubic_extrema(p0: Point, p1: Point, p2: Point, p3: Point) -> (r: Vec<i32>)
    ensures
        r@ == cubic_extrema_of(p0, p1, p2, p3),
        r@.len() <= 4,
        forall|i: int| 0 <= i < r@.len() ==> 0 <= #[trigger] r@[i] <= 1000,
        forall|i: int, j: int| 0 <= i < j < r@.len() ==> r@[i] <= r@[j],
{
    let p = |q: Point| KPoint::new(q.x.into(), q.y.into());
    let curve = CubicBez::new(p(p0), p(p1), p(p2), p(p3));
    let k = KPoint::new(1000i32.into(), 0i32.into()).x;
    curve.extrema().iter().map(|t| (*t * k).round() as i32).collect()
}

/// The inflection-point parameters of a cubic curve, in thousandths.
pub uninterp spec fn cubic_inflections_of(p0: Point, p1: Point, p2: Point, p3: Point) -> Seq<i32>;

/// Relies on kurbo::CubicBez::inflections: at most two parameters, each
/// within the closed unit interval.
#[verifier::external_body]
pub(crate) fn cubic_inflections(p0: Point, p1: Point, p2: Point, p3: Point) -> (r: Vec<i32>)
    ensures
        r@ == cubic_inflections_of(p0, p1, p2, p3),
        r@.len() <= 2,
        forall|i: int| 0 <= i < r@.len() ==> 0 <= #[trigger] r@[i] <= 1000,
{
    let p = |q: Point| KPoint::new(q.x.into(), q.y.into());
    let curve = CubicBez::new(p(p0), p(p1), p(p2), p(p3));
    let k = KPoint::new(1000i32.into(), 0i32.into()).x;
    curve.inflections().iter().map(|t| (*t * k).round() as i32).collect()
}

/// The point of a quadratic curve at a parameter in thousandths, as
/// evaluated by kurbo and rounded to the integer grid.
pub uninterp spec fn quad_point_at(p0: Point, p1: Point, p2: Point, t: i32) -> Point;

/// The sub-curve of a quadratic curve between two parameters in
/// thousandths.
pub uninterp spec fn quad_subsegment_of(p0: Point, p1: Point, p2: Point, t0: i32, t1: i32) -> Curve;

/// Relies on kurbo::QuadBez::subsegment: the sub-curve between two
/// parameters; its endpoints are the curve evaluated at those parameters
/// (kurbo::QuadBez::eval), and evaluation at the ends of the unit interval
/// returns the curve's own endpoints exactly.
#[verifier::external_body]
pub(crate) fn quad_subsegment(p0: Point, p1: Point, p2: Point, t0: i32, t1: i32) -> (r: Curve)
    ensures
        r == quad_subsegment_of(p0, p1, p2, t0, t1),
        r is Quad,
        curve_start(r) == quad_point_at(p0, p1, p2, t0),
        curve_end(r) == quad_point_at(p0, p1, p2, t1),
        t0 == 0 ==> curve_start(r) == p0,
        t1 == 1000 ==> curve_end(r) == p2,
{
    let p = |q: Point| KPoint::new(q.x.into(), q.y.into());
    let curve = QuadBez::new(p(p0), p(p1), p(p2));
    let t = KPoint::new(t0.into(), t1.into());
    let k = KPoint::new(1000i32.into(), 0i32.into()).x;
    let s = curve.subsegment(t.x / k..t.y / k);
    let g = |v: KPoint| Point { x: v.x.round() as i32, y: v.y.round() as i32 };
    Curve::Quad(g(s.p0), g(s.p1), g(s.p2))
}

/// The point of a cubic curve at a parameter in thousandths, as evaluated
/// by kurbo and rounded to the integer grid.
pub uninterp spec fn cubic_point_at(p0: Point, p1: Point, p2: Point, p3: Point, t: i32) -> Point;

/// The sub-curve of a cubic curve between two parameters in thousandths.
pub uninterp spec fn cubic_subsegment_of(
    p0: Point,
    p1: Point,
    p2: Point,
    p3: Point,
    t0: i32,
    t1: i32,
) -> Curve;

/// Relies on kurbo::CubicBez::subsegment: the sub-curve between two
/// parameters; its endpoints are the curve evaluated at those parameters
/// (kurbo::CubicBez::eval), and evaluation at the ends of the unit
/// interval returns the curve's own endpoints exactly.
#[verifier::external_body]
pub(crate) fn cubic_subsegment(
    p0: Point,
    p1: Point,
    p2: Point,
    p3: Point,
    t0: i32,
    t1: i32,
) -> (r: Curve)
    ensures
        r == cubic_subsegment_of(p0, p1, p2, p3, t0, t1),
        r is Cubic,
        curve_start(r) == cubic_point_at(p0, p1, p2, p3, t0),
        curve_end(r) == cubic_point_at(p0, p1, p2, p3, t1),
        t0 == 0 ==> curve_start(r) == p0,
        t1 == 1000 ==> curve_end(r) == p3,
{
    let p = |q: Point| KPoint::new(q.x.into(), q.y.into());
    let curve = CubicBez::new(p(p0), p(p1), p(p2), p(p3));
    let t = KPoint::new(t0.into(), t1.into());
    let k = KPoint::new(1000i32.into(), 0i32.into()).x;
    let s = curve.subsegment(t.x / k..t.y / k);
    let g = |v: KPoint| Point { x: v.x.round() as i32, y: v.y.round() as i32 };
    Curve::Cubic(g(s.p0), g(s.p1), g(s.p2), g(s.p3))
}

/// The bounding box of a curve, truncated to the integer grid.
pub uninterp spec fn curve_bbox(c: Curve) -> Rect;

/// Relies on kurbo::Shape::bounding_box for a path segment: the exact
/// bounds of the curve, truncated to the integer grid. For a line the
/// bounds are exactly the extremes of its two integer endpoints.
#[verifier::external_body]
pub(crate) fn curve_bounding_box(c: &Curve) -> (r: Rect)
    ensures
        r == curve_bbox(*c),
        r.x0 <= r.x1 && r.y0 <= r.y1,
        c is Line ==> {
            let s = curve_start(*c);
            let e = curve_end(*c);
            r.x0 == if s.x <= e.x { s.x } else { e.x }
            && r.x1 == if s.x <= e.x { e.x } else { s.x }
            && r.y0 == if s.y <= e.y { s.y } else { e.y }
            && r.y1 == if s.y <= e.y { e.y } else { s.y }
        },
{
    let p = |q: Point| KPoint::new(q.x.into(), q.y.into());
    let bb = Shape::bounding_box(&match *c {
        Line(u, v) => PathSeg::Line(KLine::new(p(u), p(v))),
        Quad(u, v, w) => PathSeg::Quad(QuadBez::new(p(u), p(v), p(w))),
        Cubic(u, v, w, z) => PathSeg::Cubic(CubicBez::new(p(u), p(v), p(w), p(z))),
    });
    Rect { x0: bb.x0 as i32, y0: bb.y0 as i32, x1: bb.x1 as i32, y1: bb.y1 as i32 }
}

} // verus!
