//! Plane geometry model: integer points, axis-aligned rectangles and
//! Bezier curves given by their control points.

use vstd::prelude::*;

verus! {

/// Largest magnitude of a region coordinate; keeps the midpoint and
/// guide-line offset arithmetic of the tree and the annotator within `i32`.
pub const COORD_LIMIT: i32 = 1_000_000_000;

/// A point of the drawing plane, in integer drawing coordinates.
#[derive(Clone, Copy, PartialEq, Eq, Structural, Debug)]
pub struct Point {
    pub x: i32,
    pub y: i32,
}

impl Point {
    pub fn new(x: i32, y: i32) -> (r: Point)
        ensures
            r == (Point { x, y }),
    {
        Point { x, y }
    }
}

/// An axis-aligned rectangle: top-left corner `(x0, y0)`, bottom-right
/// corner `(x1, y1)`, with y growing downward as in drawing coordinates.
#[derive(Clone, Copy, PartialEq, Eq, Structural, Debug)]
pub struct Rect {
    pub x0: i32,
    pub y0: i32,
    pub x1: i32,
    pub y1: i32,
}

/// A well-formed region rectangle: corners ordered and within the
/// coordinate limit.
pub open spec fn rect_wf(r: Rect) -> bool {
    &&& -COORD_LIMIT <= r.x0 <= r.x1 <= COORD_LIMIT
    &&& -COORD_LIMIT <= r.y0 <= r.y1 <= COORD_LIMIT
}

/// Whether `p` lies inside `r`, on the half-open convention: the left and
/// top edges belong to the rectangle, the right and bottom edges do not.
pub open spec fn rect_contains(r: Rect, p: Point) -> bool {
    p.x >= r.x0 && p.x < r.x1 && p.y >= r.y0 && p.y < r.y1
}

impl Rect {
    pub fn contains(&self, p: Point) -> (r: bool)
        ensures
            r == rect_contains(*self, p),
    {
        p.x >= self.x0 && p.x < self.x1 && p.y >= self.y0 && p.y < self.y1
    }
}

/// The midpoint of two coordinates: their mean, rounded toward zero.
pub open spec fn mid_val(a: int, b: int) -> int {
    if a + b >= 0 {
        (a + b) / 2
    } else {
        -((-(a + b)) / 2)
    }
}

/// `mid_val` on `i32` coordinates; always within `i32` range.
pub open spec fn mid_c(a: i32, b: i32) -> i32 {
    mid_val(a as int, b as int) as i32
}

pub proof fn lemma_mid_val_in_range(a: int, b: int)
    requires
        a <= b,
    ensures
        a <= mid_val(a, b) <= b,
{
}

/// The midpoint stays within `i32`, so `mid_c` is exactly `mid_val`.
pub proof fn lemma_mid_c_exact(a: i32, b: i32)
    ensures
        mid_c(a, b) == mid_val(a as int, b as int),
{
    if a <= b {
        lemma_mid_val_in_range(a as int, b as int);
    } else {
        lemma_mid_val_in_range(b as int, a as int);
        assert(mid_val(b as int, a as int) == mid_val(a as int, b as int));
    }
}

/// The midpoint of two coordinates, computed without overflow.
pub fn mid_coord(a: i32, b: i32) -> (m: i32)
    ensures
        m == mid_c(a, b),
        m as int == mid_val(a as int, b as int),
{
    proof {
        lemma_mid_c_exact(a, b);
    }
    let s: i64 = a as i64 + b as i64;
    let m64: i64 = s / 2;
    m64 as i32
}

/// One monotonic-with-respect-to-splitting piece of a path: a line, a
/// quadratic Bezier or a cubic Bezier, by its control points.
#[derive(Clone, Copy, PartialEq, Eq, Structural, Debug)]
pub enum Curve {
    Line(Point, Point),
    Quad(Point, Point, Point),
    Cubic(Point, Point, Point, Point),
}

/// The start point of a curve: its first control point.
pub open spec fn curve_start(c: Curve) -> Point {
    match c {
        Curve::Line(p, _) => p,
        Curve::Quad(p, _, _) => p,
        Curve::Cubic(p, _, _, _) => p,
    }
}

/// The end point of a curve: its last control point.
pub open spec fn curve_end(c: Curve) -> Point {
    match c {
        Curve::Line(_, p) => p,
        Curve::Quad(_, _, p) => p,
        Curve::Cubic(_, _, _, p) => p,
    }
}

impl Curve {
    /// Start and end point, obtained from the control points.
    pub fn endpoints(&self) -> (r: (Point, Point))
        ensures
            r.0 == curve_start(*self),
            r.1 == curve_end(*self),
    {
        match *self {
            Curve::Line(a, b) => (a, b),
            Curve::Quad(a, _, b) => (a, b),
            Curve::Cubic(a, _, _, b) => (a, b),
        }
    }
}

} // verus!
