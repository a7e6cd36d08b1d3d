//! Abstract segments and the segmenter: lines pass through whole,
//! quadratic curves are split at their extrema, cubic curves at their
//! extrema and inflection points, with near-duplicate cut parameters
//! merged.

use vstd::prelude::*;
use vstd::multiset::Multiset;
use vstd::relations::{sorted_by, total_ordering};
use vstd::seq_lib::lemma_sorted_unique;
use vstd::seq_lib::group_to_multiset_ensures;
use crate::geometry::{mid_c, mid_coord, Curve, Point, Rect, curve_end, curve_start};
use crate::primitives::{
    curve_bounding_box, curve_bbox, cubic_extrema, cubic_extrema_of, cubic_inflections,
    cubic_inflections_of, cubic_point_at, cubic_subsegment, cubic_subsegment_of, quad_extrema,
    quad_extrema_of, quad_point_at, quad_subsegment, quad_subsegment_of,
};

verus! {

/// Cut parameters closer than this (in thousandths of the curve
/// parameter) are merged into one, to avoid degenerate zero-length
/// sub-curves from numerically coincident roots.
pub const CUT_TOLERANCE: i32 = 10;

/// Whether two cut parameters are near-duplicates, to be merged.
pub open spec fn cuts_are_near(a: int, b: int) -> bool {
    -CUT_TOLERANCE < a - b < CUT_TOLERANCE
}

/// Executable form of `cuts_are_near`.
pub fn near_cuts(a: i32, b: i32) -> (r: bool)
    ensures
        r == cuts_are_near(a as int, b as int),
{
    let d: i64 = a as i64 - b as i64;
    let t: i64 = CUT_TOLERANCE as i64;
    -t < d && d < t
}

/// The cuts kept after merging near-duplicates: the first cut is kept,
/// and after it every cut that is not near the last kept one.
pub open spec fn merged_cuts(cuts: Seq<i32>) -> Seq<i32>
    decreases cuts.len(),
{
    if cuts.len() == 0 {
        Seq::empty()
    } else {
        let rest = merged_cuts(cuts.drop_last());
        if rest.len() > 0 && cuts_are_near(cuts.last() as int, rest.last() as int) {
            rest
        } else {
            rest.push(cuts.last())
        }
    }
}

/// Merge near-duplicate cut parameters, keeping the first of each run.
pub fn merge_close_cuts(cuts: &Vec<i32>) -> (r: Vec<i32>)
    ensures
        r@ == merged_cuts(cuts@),
{
    let mut out: Vec<i32> = Vec::new();
    let mut i: usize = 0;
    while i < cuts.len()
        invariant
            i <= cuts@.len(),
            out@ == merged_cuts(cuts@.take(i as int)),
        decreases cuts@.len() - i,
    {
        proof {
            assert(cuts@.take(i + 1).drop_last() =~= cuts@.take(i as int));
            assert(cuts@.take(i + 1).last() == cuts@[i as int]);
        }
        if out.len() > 0 {
            let last = out[out.len() - 1];
            if !near_cuts(cuts[i], last) {
                out.push(cuts[i]);
            }
        } else {
            out.push(cuts[i]);
        }
        i = i + 1;
    }
    proof {
        assert(cuts@.take(cuts@.len() as int) =~= cuts@);
    }
    out
}

/// Merging keeps the first cut, never ends more than the tolerance below
/// the last cut, and never lengthens the sequence.
pub proof fn lemma_merged_cuts_shape(cuts: Seq<i32>)
    requires
        cuts.len() > 0,
    ensures
        merged_cuts(cuts).len() >= 1,
        merged_cuts(cuts).len() <= cuts.len(),
        merged_cuts(cuts)[0] == cuts[0],
        merged_cuts(cuts).last() as int > cuts.last() - CUT_TOLERANCE,
    decreases cuts.len(),
{
    if cuts.len() == 1 {
        assert(merged_cuts(cuts.drop_last()) =~= Seq::<i32>::empty());
        assert(merged_cuts(cuts) =~= Seq::<i32>::empty().push(cuts.last()));
    } else {
        lemma_merged_cuts_shape(cuts.drop_last());
        assert(cuts.drop_last()[0] == cuts[0]);
        assert(cuts.drop_last().last() == cuts[cuts.len() - 2]);
    }
}

/// The ascending order on cut parameters.
pub open spec fn cut_order() -> spec_fn(i32, i32) -> bool {
    |a: i32, b: i32| a <= b
}

/// Sort cut parameters ascending (selection sort).
fn sort_cuts(cuts: Vec<i32>) -> (r: Vec<i32>)
    ensures
        r@ == cuts@.sort_by(cut_order()),
        r@.len() == cuts@.len(),
{
    broadcast use group_to_multiset_ensures;

    let ghost orig = cuts@;
    let mut work = cuts;
    let mut out: Vec<i32> = Vec::new();
    while work.len() > 0
        invariant
            sorted_by(out@, cut_order()),
            out@.to_multiset().add(work@.to_multiset()) == orig.to_multiset(),
            forall|a: int, b: int|
                0 <= a < out@.len() && 0 <= b < work@.len() ==> out@[a] <= work@[b],
        decreases work@.len(),
    {
        let mut mi: usize = 0;
        let mut j: usize = 1;
        while j < work.len()
            invariant
                work@.len() > 0,
                mi < j,
                j <= work@.len(),
                forall|k: int| 0 <= k < j ==> work@[mi as int] <= work@[k],
            decreases work@.len() - j,
        {
            if work[j] < work[mi] {
                mi = j;
            }
            j = j + 1;
        }
        let ghost old_out = out@;
        let ghost old_work = work@;
        let v = work.remove(mi);
        out.push(v);
        proof {
            broadcast use vstd::multiset::group_multiset_axioms;

            vstd::seq_lib::to_multiset_build(old_out, v);
            vstd::seq_lib::to_multiset_remove(old_work, mi as int);
            assert(out@ == old_out.push(v));
            assert(work@ == old_work.remove(mi as int));
            assert(old_work[mi as int] == v);
            assert(old_work.contains(v));
            old_work.to_multiset_ensures();
            assert(old_work.to_multiset().count(v) > 0);
            assert(out@.to_multiset().add(work@.to_multiset()) =~= old_out.to_multiset().add(
                old_work.to_multiset(),
            ));
            assert(sorted_by(out@, cut_order())) by {
                assert(forall|a: int|
                    0 <= a < old_out.len() ==> cut_order()(old_out[a], v));
            }
            assert forall|a: int, b: int|
                0 <= a < out@.len() && 0 <= b < work@.len() implies out@[a] <= work@[b] by {
                assert(work@[b] == if b < mi as int {
                    old_work[b]
                } else {
                    old_work[b + 1]
                });
            }
        }
    }
    proof {
        orig.lemma_sort_by_ensures(cut_order());
        assert(total_ordering(cut_order()));
        work@.to_multiset_ensures();
        out@.to_multiset_ensures();
        orig.to_multiset_ensures();
        assert(work@.to_multiset() =~= Multiset::empty());
        assert(out@.to_multiset() =~= orig.to_multiset());
        lemma_sorted_unique(out@, orig.sort_by(cut_order()), cut_order());
        assert(out@ =~= orig.sort_by(cut_order()));
        assert(out@.len() == out@.to_multiset().len());
        assert(orig.len() == orig.to_multiset().len());
    }
    out
}

/// One monotonic piece of an original path: a sequence number local to
/// the path's decomposition, the curve itself, and the path's style
/// attributes, carried through unchanged.
#[derive(Debug, Clone, PartialEq)]
pub struct AbstractSegment {
    pub id: usize,
    pub curve: Curve,
    pub attributes: Vec<(String, String)>,
}

/// The mathematical value of an abstract segment.
pub struct SegV {
    pub id: int,
    pub curve: Curve,
    pub attributes: Seq<(String, String)>,
}

impl View for AbstractSegment {
    type V = SegV;

    open spec fn view(&self) -> SegV {
        SegV { id: self.id as int, curve: self.curve, attributes: self.attributes@ }
    }
}

/// The values of a sequence of abstract segments.
pub open spec fn segs_view(v: Seq<AbstractSegment>) -> Seq<SegV> {
    v.map_values(|s: AbstractSegment| s@)
}

/// A deep copy of an attribute list.
pub fn clone_attrs(attrs: &Vec<(String, String)>) -> (r: Vec<(String, String)>)
    ensures
        r@ == attrs@,
{
    let mut out: Vec<(String, String)> = Vec::new();
    let mut i: usize = 0;
    while i < attrs.len()
        invariant
            i <= attrs@.len(),
            out@ == attrs@.take(i as int),
        decreases attrs@.len() - i,
    {
        let kv = (attrs[i].0.clone(), attrs[i].1.clone());
        out.push(kv);
        proof {
            assert(attrs@.take(i + 1) =~= attrs@.take(i as int).push(attrs@[i as int]));
        }
        i = i + 1;
    }
    proof {
        assert(attrs@.take(attrs@.len() as int) =~= attrs@);
    }
    out
}

impl AbstractSegment {
    /// A value copy: same id, same curve, attributes deep-copied.
    pub fn duplicate(&self) -> (r: AbstractSegment)
        ensures
            r@ == self@,
    {
        AbstractSegment {
            id: self.id,
            curve: self.curve,
            attributes: clone_attrs(&self.attributes),
        }
    }

    /// Start and end point, obtained from the curve's control points.
    pub fn get_points(&self) -> (r: (Point, Point))
        ensures
            r.0 == curve_start(self.curve),
            r.1 == curve_end(self.curve),
    {
        self.curve.endpoints()
    }

    /// The bounding box of the segment's curve.
    pub fn bounding_box(&self) -> (r: Rect)
        ensures
            r == curve_bbox(self.curve),
            r.x0 <= r.x1 && r.y0 <= r.y1,
    {
        curve_bounding_box(&self.curve)
    }

    /// The two halves of the segment's curve, split at the parameter
    /// midpoint; the halves chain at the split point.
    pub fn split_path(&self) -> (r: (Curve, Curve))
        ensures
            self.curve matches Curve::Line(a, b) ==> r == (
                Curve::Line(a, line_mid(a, b)),
                Curve::Line(line_mid(a, b), b),
            ),
            self.curve matches Curve::Quad(a, b, c) ==> r == (
                quad_subsegment_of(a, b, c, 0, 500),
                quad_subsegment_of(a, b, c, 500, 1000),
            ),
            self.curve matches Curve::Cubic(a, b, c, d) ==> r == (
                cubic_subsegment_of(a, b, c, d, 0, 500),
                cubic_subsegment_of(a, b, c, d, 500, 1000),
            ),
            curve_start(r.0) == curve_start(self.curve),
            curve_end(r.0) == curve_start(r.1),
            curve_end(r.1) == curve_end(self.curve),
    {
        match self.curve {
            Curve::Line(a, b) => {
                let m = Point::new(mid_coord(a.x, b.x), mid_coord(a.y, b.y));
                (Curve::Line(a, m), Curve::Line(m, b))
            },
            Curve::Quad(a, b, c) => {
                (quad_subsegment(a, b, c, 0, 500), quad_subsegment(a, b, c, 500, 1000))
            },
            Curve::Cubic(a, b, c, d) => {
                (cubic_subsegment(a, b, c, d, 0, 500), cubic_subsegment(a, b, c, d, 500, 1000))
            },
        }
    }
}

/// The midpoint of a line's two endpoints.
pub open spec fn line_mid(a: Point, b: Point) -> Point {
    Point { x: mid_c(a.x, b.x), y: mid_c(a.y, b.y) }
}

} // verus!

verus! {

/// Every merged cut is one of the original cuts.
pub proof fn lemma_merged_cuts_contains(cuts: Seq<i32>)
    ensures
        forall|i: int|
            0 <= i < merged_cuts(cuts).len() ==> cuts.contains(#[trigger] merged_cuts(cuts)[i]),
    decreases cuts.len(),
{
    if cuts.len() > 0 {
        lemma_merged_cuts_contains(cuts.drop_last());
        assert forall|i: int|
            0 <= i < merged_cuts(cuts).len() implies cuts.contains(
            #[trigger] merged_cuts(cuts)[i],
        ) by {
            let m = merged_cuts(cuts);
            if m[i] == cuts.last() {
                assert(cuts[cuts.len() - 1] == cuts.last());
            } else {
                let rest = merged_cuts(cuts.drop_last());
                if i < rest.len() {
                    assert(rest[i] == m[i]);
                    let k = choose|k: int|
                        0 <= k < cuts.drop_last().len() && cuts.drop_last()[k] == rest[i];
                    assert(cuts[k] == rest[i]);
                }
            }
        }
    }
}

/// A sorted cut list over a base that holds 0 and 1000 and stays within
/// them: same length, first element 0, last element 1000, all in range.
proof fn lemma_cut_list_ends(base: Seq<i32>)
    requires
        base.len() >= 2,
        base.contains(0),
        base.contains(1000),
        forall|i: int| 0 <= i < base.len() ==> 0 <= #[trigger] base[i] <= 1000,
    ensures
        base.sort_by(cut_order()).len() == base.len(),
        base.sort_by(cut_order())[0] == 0,
        base.sort_by(cut_order()).last() == 1000,
        forall|i: int|
            0 <= i < base.len() ==> 0 <= #[trigger] base.sort_by(cut_order())[i] <= 1000,
        sorted_by(base.sort_by(cut_order()), cut_order()),
{
    base.lemma_sort_by_ensures(cut_order());
    let s = base.sort_by(cut_order());
    base.to_multiset_ensures();
    s.to_multiset_ensures();
    assert(s.len() == s.to_multiset().len());
    assert(base.len() == base.to_multiset().len());
    assert(base.to_multiset().count(0) > 0);
    assert(base.to_multiset().count(1000) > 0);
    assert(s.contains(0));
    assert(s.contains(1000));
    assert forall|i: int| 0 <= i < s.len() implies 0 <= #[trigger] s[i] <= 1000 by {
        assert(s.to_multiset().count(s[i]) > 0);
        assert(base.contains(s[i]));
        let k = choose|k: int| 0 <= k < base.len() && base[k] == s[i];
        assert(0 <= base[k] <= 1000);
    }
    let i0 = choose|i: int| 0 <= i < s.len() && s[i] == 0;
    let i1 = choose|i: int| 0 <= i < s.len() && s[i] == 1000;
    if i0 > 0 {
        assert(cut_order()(s[0], s[i0]));
    }
    if i1 < s.len() - 1 {
        assert(cut_order()(s[i1], s[s.len() - 1]));
    }
}

/// The sorted cut parameters of a quadratic curve: the ends of the unit
/// interval and the curve's extrema.
pub open spec fn quad_cuts(p0: Point, p1: Point, p2: Point) -> Seq<i32> {
    (seq![0i32, 1000i32] + quad_extrema_of(p0, p1, p2)).sort_by(cut_order())
}

/// The cut parameters of a cubic curve: the ends of the unit interval,
/// the extrema and the inflection points, sorted, with near-duplicate
/// cuts merged.
pub open spec fn cubic_cuts(p0: Point, p1: Point, p2: Point, p3: Point) -> Seq<i32> {
    merged_cuts(
        (seq![0i32, 1000i32] + cubic_extrema_of(p0, p1, p2, p3) + cubic_inflections_of(
            p0,
            p1,
            p2,
            p3,
        )).sort_by(cut_order()),
    )
}

/// The monotonic pieces of one curve command: a line passes through
/// whole; a quadratic or cubic curve yields one sub-curve per consecutive
/// pair of cuts.
pub open spec fn curve_pieces(c: Curve) -> Seq<Curve> {
    match c {
        Curve::Line(_, _) => seq![c],
        Curve::Quad(a, b, d) => Seq::new(
            (quad_cuts(a, b, d).len() - 1) as nat,
            |i: int| quad_subsegment_of(a, b, d, quad_cuts(a, b, d)[i], quad_cuts(a, b, d)[i + 1]),
        ),
        Curve::Cubic(a, b, d, e) => Seq::new(
            (cubic_cuts(a, b, d, e).len() - 1) as nat,
            |i: int|
                cubic_subsegment_of(
                    a,
                    b,
                    d,
                    e,
                    cubic_cuts(a, b, d, e)[i],
                    cubic_cuts(a, b, d, e)[i + 1],
                ),
        ),
    }
}

/// Pieces tagged with consecutive ids and the path's attributes.
pub open spec fn tagged_pieces(
    pieces: Seq<Curve>,
    first_id: int,
    attrs: Seq<(String, String)>,
) -> Seq<SegV> {
    Seq::new(pieces.len(), |i: int| SegV { id: first_id + i, curve: pieces[i], attributes: attrs })
}

} // verus!

verus! {

impl AbstractSegment {
    /// Build one tagged segment.
    fn tag(id: usize, curve: Curve, attributes: &Vec<(String, String)>) -> (r: AbstractSegment)
        ensures
            r@ == (SegV { id: id as int, curve, attributes: attributes@ }),
    {
        AbstractSegment { id, curve, attributes: clone_attrs(attributes) }
    }
}

/// Decompose one curve command into abstract segments with consecutive
/// ids starting at `first_id`: a line passes through whole, a quadratic
/// curve splits at its extrema, a cubic curve at its extrema and
/// inflection points with near-duplicate cuts merged.
///
/// The pieces chain: each begins where the previous one ends, the first
/// begins at the curve's start point, and the last ends at the curve's
/// end point whenever the final cut survived merging (for lines and
/// quadratic curves it always does).
pub fn segment_curve(curve: &Curve, attributes: &Vec<(String, String)>, first_id: usize) -> (r:
    Vec<AbstractSegment>)
    requires
        first_id + 8 <= usize::MAX,
    ensures
        segs_view(r@) == tagged_pieces(curve_pieces(*curve), first_id as int, attributes@),
        1 <= r@.len() <= 7,
        r@.len() == curve_pieces(*curve).len(),
        forall|i: int| 0 <= i < r@.len() ==> (#[trigger] r@[i]).id == first_id + i,
        forall|i: int|
            0 <= i < r@.len() - 1 ==> curve_end((#[trigger] r@[i]).curve) == curve_start(
                r@[i + 1].curve,
            ),
        curve_start(r@[0].curve) == curve_start(*curve),
        !(*curve is Cubic) ==> curve_end(r@[r@.len() - 1].curve) == curve_end(*curve),
        (*curve matches Curve::Cubic(a, b, d, e) && cubic_cuts(a, b, d, e).last() == 1000)
            ==> curve_end(r@[r@.len() - 1].curve) == curve_end(*curve),
{
    match *curve {
        Curve::Line(..) => {
            let mut out: Vec<AbstractSegment> = Vec::new();
            out.push(AbstractSegment::tag(first_id, *curve, attributes));
            proof {
                assert(segs_view(out@) =~= tagged_pieces(
                    curve_pieces(*curve),
                    first_id as int,
                    attributes@,
                ));
            }
            out
        },
        Curve::Quad(a, b, d) => {
            let mut cuts: Vec<i32> = Vec::new();
            cuts.push(0);
            cuts.push(1000);
            let mut ext = quad_extrema(a, b, d);
            let ghost base = seq![0i32, 1000i32] + ext@;
            cuts.append(&mut ext);
            proof {
                assert(cuts@ =~= base);
                assert(base.contains(0)) by { assert(base[0] == 0); }
                assert(base.contains(1000)) by { assert(base[1] == 1000); }
                lemma_cut_list_ends(base);
            }
            let cuts = sort_cuts(cuts);
            let n = cuts.len();
            let mut out: Vec<AbstractSegment> = Vec::new();
            let mut i: usize = 0;
            while i < n - 1
                invariant
                    first_id + 8 <= usize::MAX,
                    cuts@ == quad_cuts(a, b, d),
                    n == cuts@.len(),
                    2 <= n <= 4,
                    cuts@[0] == 0,
                    cuts@[n - 1] == 1000,
                    i <= n - 1,
                    out@.len() == i,
                    forall|k: int| 0 <= k < i ==> (#[trigger] out@[k]).id == first_id + k,
                    forall|k: int|
                        0 <= k < i ==> (#[trigger] out@[k]).curve == quad_subsegment_of(
                            a,
                            b,
                            d,
                            cuts@[k],
                            cuts@[k + 1],
                        ),
                    forall|k: int| 0 <= k < i ==> (#[trigger] out@[k]).attributes@ == attributes@,
                    forall|k: int|
                        0 <= k < i ==> curve_start((#[trigger] out@[k]).curve) == quad_point_at(
                            a,
                            b,
                            d,
                            cuts@[k],
                        ) && curve_end(out@[k].curve) == quad_point_at(a, b, d, cuts@[k + 1]),
                    i > 0 ==> curve_start(out@[0].curve) == a,
                    i == n - 1 ==> curve_end(out@[i - 1].curve) == d,
                decreases n - 1 - i,
            {
                let piece = quad_subsegment(a, b, d, cuts[i], cuts[i + 1]);
                out.push(AbstractSegment::tag(first_id + i, piece, attributes));
                i = i + 1;
            }
            proof {
                assert(segs_view(out@) =~= tagged_pieces(
                    curve_pieces(*curve),
                    first_id as int,
                    attributes@,
                ));
            }
            out
        },
        Curve::Cubic(a, b, d, e) => {
            let mut cuts: Vec<i32> = Vec::new();
            cuts.push(0);
            cuts.push(1000);
            let mut ext = cubic_extrema(a, b, d, e);
            let ghost ext_v = ext@;
            cuts.append(&mut ext);
            let mut infl = cubic_inflections(a, b, d, e);
            let ghost base = seq![0i32, 1000i32] + ext_v + infl@;
            cuts.append(&mut infl);
            proof {
                assert(cuts@ =~= base);
                assert(base.contains(0)) by { assert(base[0] == 0); }
                assert(base.contains(1000)) by { assert(base[1] == 1000); }
                lemma_cut_list_ends(base);
            }
            let sorted = sort_cuts(cuts);
            let cuts = merge_close_cuts(&sorted);
            let ghost sorted_v = base.sort_by(cut_order());
            proof {
                lemma_merged_cuts_shape(sorted_v);
                lemma_merged_cuts_contains(sorted_v);
                assert(cuts@ == cubic_cuts(a, b, d, e));
                assert(cuts@[0] == 0);
                assert(cuts@.last() as int > 990);
                assert(cuts@.len() >= 2) by {
                    assert(cuts@[0] == 0);
                    assert(cuts@[cuts@.len() - 1] as int > 990);
                }
                assert forall|k: int| 0 <= k < cuts@.len() implies 0 <= #[trigger] cuts@[k]
                    <= 1000 by {
                    assert(sorted_v.contains(cuts@[k]));
                    let j = choose|j: int| 0 <= j < sorted_v.len() && sorted_v[j] == cuts@[k];
                }
            }
            let n = cuts.len();
            let mut out: Vec<AbstractSegment> = Vec::new();
            let mut i: usize = 0;
            while i < n - 1
                invariant
                    first_id + 8 <= usize::MAX,
                    cuts@ == cubic_cuts(a, b, d, e),
                    n == cuts@.len(),
                    2 <= n <= 8,
                    cuts@[0] == 0,
                    i <= n - 1,
                    out@.len() == i,
                    forall|k: int| 0 <= k < i ==> (#[trigger] out@[k]).id == first_id + k,
                    forall|k: int|
                        0 <= k < i ==> (#[trigger] out@[k]).curve == cubic_subsegment_of(
                            a,
                            b,
                            d,
                            e,
                            cuts@[k],
                            cuts@[k + 1],
                        ),
                    forall|k: int| 0 <= k < i ==> (#[trigger] out@[k]).attributes@ == attributes@,
                    forall|k: int|
                        0 <= k < i ==> curve_start((#[trigger] out@[k]).curve) == cubic_point_at(
                            a,
                            b,
                            d,
                            e,
                            cuts@[k],
                        ) && curve_end(out@[k].curve) == cubic_point_at(a, b, d, e, cuts@[k + 1]),
                    i > 0 ==> curve_start(out@[0].curve) == a,
                    i == n - 1 && cuts@[n - 1] == 1000 ==> curve_end(out@[i - 1].curve) == e,
                decreases n - 1 - i,
            {
                let piece = cubic_subsegment(a, b, d, e, cuts[i], cuts[i + 1]);
                out.push(AbstractSegment::tag(first_id + i, piece, attributes));
                i = i + 1;
            }
            proof {
                assert(segs_view(out@) =~= tagged_pieces(
                    curve_pieces(*curve),
                    first_id as int,
                    attributes@,
                ));
            }
            out
        },
    }
}

} // verus!

verus! {

/// One raw path: its ordered curve commands and its opaque style
/// attributes.
#[derive(Debug, Clone)]
pub struct RawPath {
    pub commands: Vec<Curve>,
    pub attributes: Vec<(String, String)>,
}

/// The abstract segments of a whole path: each command's pieces in
/// order, ids consecutive from 0 across the path.
pub open spec fn path_segs(cmds: Seq<Curve>, attrs: Seq<(String, String)>) -> Seq<SegV>
    decreases cmds.len(),
{
    if cmds.len() == 0 {
        Seq::empty()
    } else {
        let rest = path_segs(cmds.drop_last(), attrs);
        rest + tagged_pieces(curve_pieces(cmds.last()), rest.len() as int, attrs)
    }
}

/// Decompose one path into abstract segments with ids 0, 1, ... in order.
pub fn segment_path(commands: &Vec<Curve>, attributes: &Vec<(String, String)>) -> (r: Vec<
    AbstractSegment,
>)
    requires
        commands@.len() <= 0x0100_0000,
    ensures
        segs_view(r@) == path_segs(commands@, attributes@),
        r@.len() <= 7 * commands@.len(),
{
    let mut out: Vec<AbstractSegment> = Vec::new();
    let mut i: usize = 0;
    while i < commands.len()
        invariant
            commands@.len() <= 0x0100_0000,
            i <= commands@.len(),
            segs_view(out@) == path_segs(commands@.take(i as int), attributes@),
            out@.len() <= 7 * i,
        decreases commands@.len() - i,
    {
        let mut pieces = segment_curve(&commands[i], attributes, out.len());
        let ghost old_out = out@;
        let ghost piece_v = pieces@;
        out.append(&mut pieces);
        proof {
            assert(commands@.take(i + 1).drop_last() =~= commands@.take(i as int));
            assert(commands@.take(i + 1).last() == commands@[i as int]);
            assert(segs_view(old_out + piece_v) =~= segs_view(old_out) + segs_view(piece_v));
            assert(segs_view(out@) =~= path_segs(commands@.take(i + 1), attributes@));
        }
        i = i + 1;
    }
    proof {
        assert(commands@.take(commands@.len() as int) =~= commands@);
    }
    out
}

/// Decompose every path of a drawing; each path's segments carry that
/// path's attributes and ids local to the path.
pub fn segment_all(paths: &Vec<RawPath>) -> (r: Vec<Vec<AbstractSegment>>)
    requires
        forall|i: int| 0 <= i < paths@.len() ==> (#[trigger] paths@[i]).commands@.len()
            <= 0x0100_0000,
    ensures
        r@.len() == paths@.len(),
        forall|i: int|
            0 <= i < paths@.len() ==> segs_view((#[trigger] r@[i])@) == path_segs(
                paths@[i].commands@,
                paths@[i].attributes@,
            ),
{
    let mut out: Vec<Vec<AbstractSegment>> = Vec::new();
    let mut i: usize = 0;
    while i < paths.len()
        invariant
            forall|k: int| 0 <= k < paths@.len() ==> (#[trigger] paths@[k]).commands@.len()
                <= 0x0100_0000,
            i <= paths@.len(),
            out@.len() == i,
            forall|k: int|
                0 <= k < i ==> segs_view((#[trigger] out@[k])@) == path_segs(
                    paths@[k].commands@,
                    paths@[k].attributes@,
                ),
        decreases paths@.len() - i,
    {
        let segs = segment_path(&paths[i].commands, &paths[i].attributes);
        out.push(segs);
        i = i + 1;
    }
    out
}

} // verus!

