//! The region tree: a quadtree over the drawing's bounding rectangle.
//! Each split filters the active segments into four equal quadrants and
//! derives each quadrant's initial winding number from the parent's value
//! and locally counted boundary crossings — the winding number is never
//! recomputed from the whole path.

use vstd::prelude::*;
use crate::geometry::{mid_c, mid_coord, rect_contains, rect_wf, Curve, Point, Rect, curve_end,
    curve_start};
use crate::primitives::{curve_hits_line, hits_line};
use crate::segment::{segs_view, AbstractSegment, SegV};

verus! {

/// The deepest level at which a region may still split.
pub const MAX_DEPTH: usize = 4;

/// A region holds at most this many segments before it stops splitting.
pub const SEGMENT_THRESHOLD: usize = 2;

/// The x coordinate "far outside the box" where the rightward ray from
/// the midpoint of a region's right edge ends.
pub const RAY_FAR_X: i32 = 1000;

/// Bound on the winding number accepted at the root; keeps the derived
/// winding numbers of all descendants within `i64`.
pub const WINDING_LIMIT: i64 = 1_000_000_000_000;

/// Bound on the number of segments accepted at the root.
pub const SEGMENT_LIMIT: usize = 1_000_000;

/// A quadtree node: either a leaf holding segments, or a branch holding
/// the four quadrant subtrees.
#[derive(Debug, PartialEq)]
pub enum NodeKind {
    Leaf(Vec<AbstractSegment>),
    Branch(Box<TreeNode>, Box<TreeNode>, Box<TreeNode>, Box<TreeNode>),
}

/// One region of the recursive spatial partition.
#[derive(Debug, PartialEq)]
pub struct TreeNode {
    pub bounding_box: Rect,
    pub node_kind: NodeKind,
    pub initial_winding_number: i64,
}

/// The mathematical value of a region tree.
pub enum TreeV {
    Leaf { rect: Rect, segs: Seq<SegV>, winding: int },
    Branch {
        rect: Rect,
        winding: int,
        top_left: Box<TreeV>,
        top_right: Box<TreeV>,
        bottom_left: Box<TreeV>,
        bottom_right: Box<TreeV>,
    },
}

/// The value of a tree node.
pub open spec fn tree_view(n: TreeNode) -> TreeV
    decreases n,
{
    match n.node_kind {
        NodeKind::Leaf(segs) => TreeV::Leaf {
            rect: n.bounding_box,
            segs: segs_view(segs@),
            winding: n.initial_winding_number as int,
        },
        NodeKind::Branch(tl, tr, bl, br) => TreeV::Branch {
            rect: n.bounding_box,
            winding: n.initial_winding_number as int,
            top_left: Box::new(tree_view(*tl)),
            top_right: Box::new(tree_view(*tr)),
            bottom_left: Box::new(tree_view(*bl)),
            bottom_right: Box::new(tree_view(*br)),
        },
    }
}

/// The rectangle at a tree value's root.
pub open spec fn rect_of(t: TreeV) -> Rect {
    match t {
        TreeV::Leaf { rect, .. } => rect,
        TreeV::Branch { rect, .. } => rect,
    }
}

/// The winding number at a tree value's root.
pub open spec fn winding_of(t: TreeV) -> int {
    match t {
        TreeV::Leaf { winding, .. } => winding,
        TreeV::Branch { winding, .. } => winding,
    }
}

/// The top-left quadrant of a rectangle.
pub open spec fn quadrant_tl(r: Rect) -> Rect {
    Rect { x0: r.x0, y0: r.y0, x1: mid_c(r.x0, r.x1), y1: mid_c(r.y0, r.y1) }
}

/// The top-right quadrant of a rectangle.
pub open spec fn quadrant_tr(r: Rect) -> Rect {
    Rect { x0: mid_c(r.x0, r.x1), y0: r.y0, x1: r.x1, y1: mid_c(r.y0, r.y1) }
}

/// The bottom-left quadrant of a rectangle.
pub open spec fn quadrant_bl(r: Rect) -> Rect {
    Rect { x0: r.x0, y0: mid_c(r.y0, r.y1), x1: mid_c(r.x0, r.x1), y1: r.y1 }
}

/// The bottom-right quadrant of a rectangle.
pub open spec fn quadrant_br(r: Rect) -> Rect {
    Rect { x0: mid_c(r.x0, r.x1), y0: mid_c(r.y0, r.y1), x1: r.x1, y1: r.y1 }
}

/// Whether a curve meets any of the four boundary lines of a rectangle.
pub open spec fn hits_boundary(c: Curve, r: Rect) -> bool {
    ||| hits_line(c, Point { x: r.x0, y: r.y0 }, Point { x: r.x1, y: r.y0 })
    ||| hits_line(c, Point { x: r.x1, y: r.y0 }, Point { x: r.x1, y: r.y1 })
    ||| hits_line(c, Point { x: r.x0, y: r.y1 }, Point { x: r.x1, y: r.y1 })
    ||| hits_line(c, Point { x: r.x0, y: r.y0 }, Point { x: r.x0, y: r.y1 })
}

/// The conservative inclusion test of the region filter: a segment is
/// kept when its start or end point lies inside the quadrant, or when it
/// meets one of the quadrant's boundary lines.
pub open spec fn seg_included(c: Curve, r: Rect) -> bool {
    rect_contains(r, curve_start(c)) || rect_contains(r, curve_end(c)) || hits_boundary(c, r)
}

/// The segments a quadrant retains from its parent, in order.
pub open spec fn included_segs(segs: Seq<SegV>, r: Rect) -> Seq<SegV>
    decreases segs.len(),
{
    if segs.len() == 0 {
        Seq::empty()
    } else {
        let rest = included_segs(segs.drop_last(), r);
        if seg_included(segs.last().curve, r) {
            rest.push(segs.last())
        } else {
            rest
        }
    }
}

/// Law: the filter is conservative but complete — it never omits a
/// segment whose start or end point lies in the quadrant or that meets
/// one of its boundary lines.
pub proof fn lemma_filter_complete(segs: Seq<SegV>, r: Rect, i: int)
    requires
        0 <= i < segs.len(),
        seg_included(segs[i].curve, r),
    ensures
        included_segs(segs, r).contains(segs[i]),
    decreases segs.len(),
{
    let kept = included_segs(segs, r);
    if i == segs.len() - 1 {
        assert(kept.last() == segs[i]);
    } else {
        lemma_filter_complete(segs.drop_last(), r, i);
        let rest = included_segs(segs.drop_last(), r);
        let k = choose|k: int| 0 <= k < rest.len() && rest[k] == segs[i];
        if seg_included(segs.last().curve, r) {
            assert(kept[k] == segs[i]);
        }
    }
}

/// The signed contribution of one segment to a region's bottom-boundary
/// crossing count: -1 when the segment starts above the bottom line,
/// +1 otherwise, and 0 when it does not meet the line.
pub open spec fn bottom_contrib(c: Curve, r: Rect) -> int {
    if hits_line(c, Point { x: r.x0, y: r.y1 }, Point { x: r.x1, y: r.y1 }) {
        if curve_start(c).y < r.y1 {
            -1
        } else {
            1
        }
    } else {
        0
    }
}

/// The signed bottom-boundary crossing count of a segment set.
pub open spec fn bottom_count(segs: Seq<SegV>, r: Rect) -> int
    decreases segs.len(),
{
    if segs.len() == 0 {
        0
    } else {
        bottom_count(segs.drop_last(), r) + bottom_contrib(segs.last().curve, r)
    }
}

/// The signed contribution of one segment to the crossing count of the
/// rightward ray from the midpoint of a region's right edge: -1 when the
/// segment starts above the midline, +1 otherwise, 0 when it misses the
/// ray.
pub open spec fn ray_contrib(c: Curve, r: Rect) -> int {
    let cy = mid_c(r.y0, r.y1);
    if hits_line(c, Point { x: r.x1, y: cy }, Point { x: RAY_FAR_X, y: cy }) {
        if curve_start(c).y < cy {
            -1
        } else {
            1
        }
    } else {
        0
    }
}

/// The right-edge adjustment for a segment meeting the line through the
/// region's right edge: -1 for a start point strictly outside-right and
/// below the midline, +1 for such an end point. This compensates for
/// segments that terminate exactly on the boundary; together with the ray
/// count a segment may be counted at both sites, and that double
/// accounting is kept deliberately as the tie-break policy.
pub open spec fn edge_adjust(c: Curve, r: Rect) -> int {
    let cy = mid_c(r.y0, r.y1);
    if hits_line(c, Point { x: r.x1, y: r.y0 }, Point { x: r.x1, y: r.y1 }) {
        (if curve_start(c).x > r.x1 && curve_start(c).y > cy {
            -1int
        } else {
            0int
        }) + (if curve_end(c).x > r.x1 && curve_end(c).y > cy {
            1int
        } else {
            0int
        })
    } else {
        0
    }
}

/// The signed contribution of one segment to the right-edge crossing
/// count: the ray crossing plus the edge adjustment.
pub open spec fn sf_contrib(c: Curve, r: Rect) -> int {
    ray_contrib(c, r) + edge_adjust(c, r)
}

/// The signed crossing count of the rightward ray from the midpoint of a
/// region's right edge, over a segment set.
pub open spec fn sf_count(segs: Seq<SegV>, r: Rect) -> int
    decreases segs.len(),
{
    if segs.len() == 0 {
        0
    } else {
        sf_count(segs.drop_last(), r) + sf_contrib(segs.last().curve, r)
    }
}

/// The region tree built from a rectangle, a segment set, an inherited
/// winding number and the current depth: a leaf when the segment count is
/// at or below the threshold or the maximum depth is reached; otherwise a
/// branch whose four quadrants filter the segments and derive their
/// winding numbers from local boundary-crossing counts.
pub open spec fn build_v(rect: Rect, segs: Seq<SegV>, w: int, depth: nat) -> TreeV
    decreases MAX_DEPTH - depth,
{
    if segs.len() <= SEGMENT_THRESHOLD || depth >= MAX_DEPTH {
        TreeV::Leaf { rect, segs, winding: w }
    } else {
        let tl_r = quadrant_tl(rect);
        let tr_r = quadrant_tr(rect);
        let bl_r = quadrant_bl(rect);
        let br_r = quadrant_br(rect);
        let tl_s = included_segs(segs, tl_r);
        let tr_s = included_segs(segs, tr_r);
        let bl_s = included_segs(segs, bl_r);
        let br_s = included_segs(segs, br_r);
        let sf = sf_count(segs, rect);
        TreeV::Branch {
            rect,
            winding: w,
            top_left: Box::new(
                build_v(tl_r, tl_s, w + bottom_count(tr_s, tr_r) + sf, (depth + 1) as nat),
            ),
            top_right: Box::new(build_v(tr_r, tr_s, w + sf, (depth + 1) as nat)),
            bottom_left: Box::new(
                build_v(bl_r, bl_s, w + bottom_count(br_s, br_r), (depth + 1) as nat),
            ),
            bottom_right: Box::new(build_v(br_r, br_s, w, (depth + 1) as nat)),
        }
    }
}

} // verus!

verus! {

/// The segments held by a leaf node.
pub open spec fn leaf_segs(n: TreeNode) -> Seq<SegV> {
    match n.node_kind {
        NodeKind::Leaf(v) => segs_view(v@),
        NodeKind::Branch(..) => Seq::empty(),
    }
}

/// A quadrant retains no more segments than its parent held.
pub proof fn lemma_included_len(segs: Seq<SegV>, r: Rect)
    ensures
        included_segs(segs, r).len() <= segs.len(),
    decreases segs.len(),
{
    if segs.len() > 0 {
        lemma_included_len(segs.drop_last(), r);
    }
}

/// The bottom-boundary crossing count is at most one per segment.
pub proof fn lemma_bottom_count_bound(segs: Seq<SegV>, r: Rect)
    ensures
        -(segs.len() as int) <= bottom_count(segs, r) <= segs.len() as int,
    decreases segs.len(),
{
    if segs.len() > 0 {
        lemma_bottom_count_bound(segs.drop_last(), r);
    }
}

/// The right-edge ray crossing count is at most two per segment.
pub proof fn lemma_sf_count_bound(segs: Seq<SegV>, r: Rect)
    ensures
        -2 * (segs.len() as int) <= sf_count(segs, r) <= 2 * (segs.len() as int),
    decreases segs.len(),
{
    if segs.len() > 0 {
        lemma_sf_count_bound(segs.drop_last(), r);
    }
}

/// The quadrants of a well-formed rectangle are well-formed.
pub proof fn lemma_quadrants_wf(r: Rect)
    requires
        rect_wf(r),
    ensures
        rect_wf(quadrant_tl(r)),
        rect_wf(quadrant_tr(r)),
        rect_wf(quadrant_bl(r)),
        rect_wf(quadrant_br(r)),
{
    crate::geometry::lemma_mid_c_exact(r.x0, r.x1);
    crate::geometry::lemma_mid_c_exact(r.y0, r.y1);
    crate::geometry::lemma_mid_val_in_range(r.x0 as int, r.x1 as int);
    crate::geometry::lemma_mid_val_in_range(r.y0 as int, r.y1 as int);
}

impl TreeNode {
    /// Filter the segments that a quadrant retains: a segment is kept
    /// when its start or end point lies inside the quadrant or when it
    /// meets one of the quadrant's boundary lines. The result is a leaf
    /// whose winding number is not yet derived.
    fn filter_segments(segments: &Vec<AbstractSegment>, rect: Rect) -> (r: TreeNode)
        ensures
            r.bounding_box == rect,
            r.node_kind is Leaf,
            r.initial_winding_number == 0,
            leaf_segs(r) == included_segs(segs_view(segments@), rect),
            leaf_segs(r).len() <= segments@.len(),
    {
        let ghost v = segs_view(segments@);
        let top_left = Point { x: rect.x0, y: rect.y0 };
        let top_right = Point { x: rect.x1, y: rect.y0 };
        let bottom_left = Point { x: rect.x0, y: rect.y1 };
        let bottom_right = Point { x: rect.x1, y: rect.y1 };
        let mut kept: Vec<AbstractSegment> = Vec::new();
        let mut i: usize = 0;
        while i < segments.len()
            invariant
                i <= segments@.len(),
                v == segs_view(segments@),
                v.len() == segments@.len(),
                top_left == (Point { x: rect.x0, y: rect.y0 }),
                top_right == (Point { x: rect.x1, y: rect.y0 }),
                bottom_left == (Point { x: rect.x0, y: rect.y1 }),
                bottom_right == (Point { x: rect.x1, y: rect.y1 }),
                segs_view(kept@) == included_segs(v.take(i as int), rect),
                kept@.len() <= i,
            decreases segments@.len() - i,
        {
            let seg = &segments[i];
            let (start, end) = seg.get_points();
            let keep = rect.contains(start) || rect.contains(end) || curve_hits_line(
                &seg.curve,
                top_left,
                top_right,
            ) || curve_hits_line(&seg.curve, top_right, bottom_right) || curve_hits_line(
                &seg.curve,
                bottom_left,
                bottom_right,
            ) || curve_hits_line(&seg.curve, top_left, bottom_left);
            proof {
                assert(v.take(i + 1).drop_last() =~= v.take(i as int));
                assert(v.take(i + 1).last() == v[i as int]);
                assert(v[i as int] == segments@[i as int]@);
                assert(keep == seg_included(v[i as int].curve, rect));
            }
            if keep {
                let copy = seg.duplicate();
                kept.push(copy);
                proof {
                    assert(segs_view(kept@) =~= included_segs(v.take(i + 1), rect));
                }
            }
            i = i + 1;
        }
        proof {
            assert(v.take(v.len() as int) =~= v);
        }
        TreeNode { bounding_box: rect, node_kind: NodeKind::Leaf(kept), initial_winding_number: 0 }
    }

    /// The signed count of this leaf's segments crossing the horizontal
    /// line through the bottom edge of its box: -1 for a segment that
    /// starts above the line, +1 otherwise.
    fn count_bottom_intersections(&self) -> (r: i64)
        requires
            self.node_kind is Leaf,
            leaf_segs(*self).len() <= SEGMENT_LIMIT,
        ensures
            r as int == bottom_count(leaf_segs(*self), self.bounding_box),
            -(leaf_segs(*self).len() as int) <= r as int <= leaf_segs(*self).len() as int,
    {
        let segments = match &self.node_kind {
            NodeKind::Leaf(v) => v,
            NodeKind::Branch(..) => vstd::pervasive::unreached(),
        };
        let ghost v = segs_view(segments@);
        let bl = Point { x: self.bounding_box.x0, y: self.bounding_box.y1 };
        let br = Point { x: self.bounding_box.x1, y: self.bounding_box.y1 };
        let mut intersections: i64 = 0;
        let mut i: usize = 0;
        while i < segments.len()
            invariant
                i <= segments@.len(),
                v == segs_view(segments@),
                v.len() == segments@.len(),
                v.len() <= SEGMENT_LIMIT,
                bl == (Point { x: self.bounding_box.x0, y: self.bounding_box.y1 }),
                br == (Point { x: self.bounding_box.x1, y: self.bounding_box.y1 }),
                intersections as int == bottom_count(v.take(i as int), self.bounding_box),
                -(i as int) <= intersections as int <= i as int,
            decreases segments@.len() - i,
        {
            let seg = &segments[i];
            proof {
                assert(v.take(i + 1).drop_last() =~= v.take(i as int));
                assert(v.take(i + 1).last() == v[i as int]);
                assert(v[i as int] == segments@[i as int]@);
            }
            if curve_hits_line(&seg.curve, bl, br) {
                let (start, _) = seg.get_points();
                if start.y < bl.y {
                    intersections = intersections - 1;
                } else {
                    intersections = intersections + 1;
                }
            }
            i = i + 1;
        }
        proof {
            assert(v.take(v.len() as int) =~= v);
        }
        intersections
    }
}

/// The signed crossing count of the rightward ray from the midpoint of
/// the region's right edge, with the right-edge adjustment for segments
/// that terminate beyond the boundary.
fn section_f_intersections(segments: &Vec<AbstractSegment>, rect: Rect) -> (r: i64)
    requires
        segments@.len() <= SEGMENT_LIMIT,
    ensures
        r as int == sf_count(segs_view(segments@), rect),
        -2 * (segments@.len() as int) <= r as int <= 2 * (segments@.len() as int),
{
    let ghost v = segs_view(segments@);
    let halfway = mid_coord(rect.y0, rect.y1);
    let middle_right = Point { x: rect.x1, y: halfway };
    let middle_far = Point { x: RAY_FAR_X, y: halfway };
    let edge_top = Point { x: rect.x1, y: rect.y0 };
    let edge_bottom = Point { x: rect.x1, y: rect.y1 };
    let mut acc: i64 = 0;
    let mut i: usize = 0;
    while i < segments.len()
        invariant
            i <= segments@.len(),
            v == segs_view(segments@),
            v.len() == segments@.len(),
            v.len() <= SEGMENT_LIMIT,
            halfway == mid_c(rect.y0, rect.y1),
            middle_right == (Point { x: rect.x1, y: mid_c(rect.y0, rect.y1) }),
            middle_far == (Point { x: RAY_FAR_X, y: mid_c(rect.y0, rect.y1) }),
            edge_top == (Point { x: rect.x1, y: rect.y0 }),
            edge_bottom == (Point { x: rect.x1, y: rect.y1 }),
            acc as int == sf_count(v.take(i as int), rect),
            -2 * (i as int) <= acc as int <= 2 * (i as int),
        decreases segments@.len() - i,
    {
        let seg = &segments[i];
        let (start, end) = seg.get_points();
        proof {
            assert(v.take(i + 1).drop_last() =~= v.take(i as int));
            assert(v.take(i + 1).last() == v[i as int]);
            assert(v[i as int] == segments@[i as int]@);
        }
        if curve_hits_line(&seg.curve, middle_right, middle_far) {
            if start.y < halfway {
                acc = acc - 1;
            } else {
                acc = acc + 1;
            }
        }
        if curve_hits_line(&seg.curve, edge_top, edge_bottom) {
            if start.x > rect.x1 && start.y > halfway {
                acc = acc - 1;
            }
            if end.x > rect.x1 && end.y > halfway {
                acc = acc + 1;
            }
        }
        i = i + 1;
    }
    proof {
        assert(v.take(v.len() as int) =~= v);
    }
    acc
}

} // verus!

verus! {

impl TreeNode {
    /// Split a leaf region recursively: stop at the segment threshold or
    /// the maximum depth; otherwise filter the segments into the four
    /// quadrants, derive each quadrant's winding number from this node's
    /// value and the local crossing counts, and recurse.
    fn split(self, depth: usize) -> (r: TreeNode)
        requires
            self.node_kind is Leaf,
            rect_wf(self.bounding_box),
            leaf_segs(self).len() <= SEGMENT_LIMIT,
            depth <= MAX_DEPTH,
            -WINDING_LIMIT - 3_000_000 * (depth as i64) <= self.initial_winding_number
                <= WINDING_LIMIT + 3_000_000 * (depth as i64),
        ensures
            tree_view(r) == build_v(
                self.bounding_box,
                leaf_segs(self),
                self.initial_winding_number as int,
                depth as nat,
            ),
        decreases MAX_DEPTH - depth,
    {
        let TreeNode { bounding_box, node_kind, initial_winding_number } = self;
        let segments = match node_kind {
            NodeKind::Leaf(v) => v,
            NodeKind::Branch(..) => vstd::pervasive::unreached(),
        };
        let ghost v = segs_view(segments@);
        let ghost w = initial_winding_number as int;

        if segments.len() <= SEGMENT_THRESHOLD || depth >= MAX_DEPTH {
            return TreeNode {
                bounding_box,
                node_kind: NodeKind::Leaf(segments),
                initial_winding_number,
            };
        }
        let cx = mid_coord(bounding_box.x0, bounding_box.x1);
        let cy = mid_coord(bounding_box.y0, bounding_box.y1);
        let tl_r = Rect { x0: bounding_box.x0, y0: bounding_box.y0, x1: cx, y1: cy };
        let tr_r = Rect { x0: cx, y0: bounding_box.y0, x1: bounding_box.x1, y1: cy };
        let bl_r = Rect { x0: bounding_box.x0, y0: cy, x1: cx, y1: bounding_box.y1 };
        let br_r = Rect { x0: cx, y0: cy, x1: bounding_box.x1, y1: bounding_box.y1 };
        proof {
            assert(tl_r == quadrant_tl(bounding_box));
            assert(tr_r == quadrant_tr(bounding_box));
            assert(bl_r == quadrant_bl(bounding_box));
            assert(br_r == quadrant_br(bounding_box));
            lemma_quadrants_wf(bounding_box);
        }

        let mut top_left = TreeNode::filter_segments(&segments, tl_r);
        let mut top_right = TreeNode::filter_segments(&segments, tr_r);
        let mut bottom_left = TreeNode::filter_segments(&segments, bl_r);
        let mut bottom_right = TreeNode::filter_segments(&segments, br_r);

        let section_f = section_f_intersections(&segments, bounding_box);
        let tr_bottom = top_right.count_bottom_intersections();
        let br_bottom = bottom_right.count_bottom_intersections();
        proof {
            lemma_sf_count_bound(v, bounding_box);
            lemma_bottom_count_bound(leaf_segs(top_right), tr_r);
            lemma_bottom_count_bound(leaf_segs(bottom_right), br_r);
        }

        top_left.initial_winding_number = initial_winding_number + tr_bottom + section_f;
        top_right.initial_winding_number = initial_winding_number + section_f;
        bottom_left.initial_winding_number = initial_winding_number + br_bottom;
        bottom_right.initial_winding_number = initial_winding_number;

        let ghost tl_leaf = top_left;

        let done_tl = top_left.split(depth + 1);
        let done_tr = top_right.split(depth + 1);
        let done_bl = bottom_left.split(depth + 1);
        let done_br = bottom_right.split(depth + 1);

        let r = TreeNode {
            bounding_box,
            node_kind: NodeKind::Branch(
                Box::new(done_tl),
                Box::new(done_tr),
                Box::new(done_bl),
                Box::new(done_br),
            ),
            initial_winding_number,
        };
        proof {
            assert(leaf_segs(tl_leaf) == included_segs(v, quadrant_tl(bounding_box)));
            assert(tree_view(done_tl) == build_v(
                quadrant_tl(bounding_box),
                included_segs(v, quadrant_tl(bounding_box)),
                w + bottom_count(included_segs(v, quadrant_tr(bounding_box)), quadrant_tr(bounding_box))
                    + sf_count(v, bounding_box),
                (depth + 1) as nat,
            ));
            assert(tree_view(r) == build_v(bounding_box, v, w, depth as nat));
        }
        r
    }

    /// Build the region tree over a drawing's bounding rectangle: the
    /// root region holds all segments and the given winding number (0 at
    /// the true root), and is split recursively.
    pub fn new(
        bounding_box: Rect,
        segments: Vec<AbstractSegment>,
        initial_winding_number: i64,
    ) -> (r: TreeNode)
        requires
            rect_wf(bounding_box),
            segments@.len() <= SEGMENT_LIMIT,
            -WINDING_LIMIT <= initial_winding_number <= WINDING_LIMIT,
        ensures
            tree_view(r) == build_v(
                bounding_box,
                segs_view(segments@),
                initial_winding_number as int,
                0,
            ),
            tree_partitioned(tree_view(r)),
            tree_rects_wf(tree_view(r)),
            depth_bounded(tree_view(r), 0),
            winding_consistent(tree_view(r)),
    {
        proof {
            lemma_build_partitioned(
                bounding_box,
                segs_view(segments@),
                initial_winding_number as int,
                0,
            );
            lemma_build_depth_bounded(
                bounding_box,
                segs_view(segments@),
                initial_winding_number as int,
                0,
            );
            lemma_build_winding_consistent(
                bounding_box,
                segs_view(segments@),
                initial_winding_number as int,
                0,
            );
        }
        let root = TreeNode {
            bounding_box,
            node_kind: NodeKind::Leaf(segments),
            initial_winding_number,
        };
        root.split(0)
    }
}

} // verus!

verus! {

/// Every rectangle of a tree is well-formed.
pub open spec fn tree_rects_wf(t: TreeV) -> bool
    decreases t,
{
    match t {
        TreeV::Leaf { rect, .. } => rect_wf(rect),
        TreeV::Branch { rect, top_left, top_right, bottom_left, bottom_right, .. } => rect_wf(rect)
            && tree_rects_wf(*top_left) && tree_rects_wf(*top_right) && tree_rects_wf(*bottom_left)
            && tree_rects_wf(*bottom_right),
    }
}

/// The top-left child of a branch.
pub open spec fn branch_tl(t: TreeV) -> TreeV {
    match t {
        TreeV::Branch { top_left, .. } => *top_left,
        _ => t,
    }
}

/// The top-right child of a branch.
pub open spec fn branch_tr(t: TreeV) -> TreeV {
    match t {
        TreeV::Branch { top_right, .. } => *top_right,
        _ => t,
    }
}

/// The bottom-left child of a branch.
pub open spec fn branch_bl(t: TreeV) -> TreeV {
    match t {
        TreeV::Branch { bottom_left, .. } => *bottom_left,
        _ => t,
    }
}

/// The bottom-right child of a branch.
pub open spec fn branch_br(t: TreeV) -> TreeV {
    match t {
        TreeV::Branch { bottom_right, .. } => *bottom_right,
        _ => t,
    }
}

/// Law: the four quadrants of a well-formed rectangle exactly tile it.
/// Every point of the parent lies in at least one quadrant (on the
/// half-open membership convention), and in no two quadrants at once.
pub proof fn lemma_quadrants_tile(r: Rect, p: Point)
    requires
        rect_wf(r),
    ensures
        rect_contains(r, p) <==> (rect_contains(quadrant_tl(r), p) || rect_contains(
            quadrant_tr(r),
            p,
        ) || rect_contains(quadrant_bl(r), p) || rect_contains(quadrant_br(r), p)),
        !(rect_contains(quadrant_tl(r), p) && rect_contains(quadrant_tr(r), p)),
        !(rect_contains(quadrant_tl(r), p) && rect_contains(quadrant_bl(r), p)),
        !(rect_contains(quadrant_tl(r), p) && rect_contains(quadrant_br(r), p)),
        !(rect_contains(quadrant_tr(r), p) && rect_contains(quadrant_bl(r), p)),
        !(rect_contains(quadrant_tr(r), p) && rect_contains(quadrant_br(r), p)),
        !(rect_contains(quadrant_bl(r), p) && rect_contains(quadrant_br(r), p)),
{
    crate::geometry::lemma_mid_c_exact(r.x0, r.x1);
    crate::geometry::lemma_mid_c_exact(r.y0, r.y1);
    crate::geometry::lemma_mid_val_in_range(r.x0 as int, r.x1 as int);
    crate::geometry::lemma_mid_val_in_range(r.y0 as int, r.y1 as int);
}

/// Every branch of the tree carries exactly the four quadrant rectangles
/// of its own rectangle, and every rectangle is well-formed.
pub open spec fn tree_partitioned(t: TreeV) -> bool
    decreases t,
{
    match t {
        TreeV::Leaf { rect, .. } => rect_wf(rect),
        TreeV::Branch { rect, top_left, top_right, bottom_left, bottom_right, .. } => rect_wf(rect)
            && rect_of(*top_left) == quadrant_tl(rect) && rect_of(*top_right) == quadrant_tr(rect)
            && rect_of(*bottom_left) == quadrant_bl(rect) && rect_of(*bottom_right) == quadrant_br(
            rect,
        ) && tree_partitioned(*top_left) && tree_partitioned(*top_right) && tree_partitioned(
            *bottom_left,
        ) && tree_partitioned(*bottom_right),
    }
}

/// Law: in every tree the builder produces over a well-formed rectangle,
/// the children of every branch sit exactly on the four quadrants of that
/// branch's box — with `lemma_quadrants_tile`, the children partition it.
pub proof fn lemma_build_partitioned(rect: Rect, segs: Seq<SegV>, w: int, depth: nat)
    requires
        rect_wf(rect),
    ensures
        tree_partitioned(build_v(rect, segs, w, depth)),
        tree_rects_wf(build_v(rect, segs, w, depth)),
    decreases MAX_DEPTH - depth,
{
    if !(segs.len() <= SEGMENT_THRESHOLD || depth >= MAX_DEPTH) {
        lemma_quadrants_wf(rect);
        let sf = sf_count(segs, rect);
        let tr_s = included_segs(segs, quadrant_tr(rect));
        let br_s = included_segs(segs, quadrant_br(rect));
        lemma_build_partitioned(
            quadrant_tl(rect),
            included_segs(segs, quadrant_tl(rect)),
            w + bottom_count(tr_s, quadrant_tr(rect)) + sf,
            (depth + 1) as nat,
        );
        lemma_build_partitioned(quadrant_tr(rect), tr_s, w + sf, (depth + 1) as nat);
        lemma_build_partitioned(
            quadrant_bl(rect),
            included_segs(segs, quadrant_bl(rect)),
            w + bottom_count(br_s, quadrant_br(rect)),
            (depth + 1) as nat,
        );
        lemma_build_partitioned(quadrant_br(rect), br_s, w, (depth + 1) as nat);
        lemma_build_rect(rect, segs, w, depth);
        lemma_build_rect(
            quadrant_tl(rect),
            included_segs(segs, quadrant_tl(rect)),
            w + bottom_count(tr_s, quadrant_tr(rect)) + sf,
            (depth + 1) as nat,
        );
        lemma_build_rect(quadrant_tr(rect), tr_s, w + sf, (depth + 1) as nat);
        lemma_build_rect(
            quadrant_bl(rect),
            included_segs(segs, quadrant_bl(rect)),
            w + bottom_count(br_s, quadrant_br(rect)),
            (depth + 1) as nat,
        );
        lemma_build_rect(quadrant_br(rect), br_s, w, (depth + 1) as nat);
    }
}

/// The tree the builder produces sits on the rectangle it was given.
pub proof fn lemma_build_rect(rect: Rect, segs: Seq<SegV>, w: int, depth: nat)
    ensures
        rect_of(build_v(rect, segs, w, depth)) == rect,
{
}

/// The tree the builder produces carries the winding number it was given.
pub proof fn lemma_build_winding(rect: Rect, segs: Seq<SegV>, w: int, depth: nat)
    ensures
        winding_of(build_v(rect, segs, w, depth)) == w,
{
}

/// Whether every node of a tree, rooted at the given depth, stays within
/// the maximum depth, with branches strictly above it.
pub open spec fn depth_bounded(t: TreeV, depth: nat) -> bool
    decreases t,
{
    match t {
        TreeV::Leaf { .. } => depth <= MAX_DEPTH,
        TreeV::Branch { top_left, top_right, bottom_left, bottom_right, .. } => depth < MAX_DEPTH
            && depth_bounded(*top_left, (depth + 1) as nat) && depth_bounded(
            *top_right,
            (depth + 1) as nat,
        ) && depth_bounded(*bottom_left, (depth + 1) as nat) && depth_bounded(
            *bottom_right,
            (depth + 1) as nat,
        ),
    }
}

/// Law: no node of a built tree exists beyond the maximum depth.
pub proof fn lemma_build_depth_bounded(rect: Rect, segs: Seq<SegV>, w: int, depth: nat)
    requires
        depth <= MAX_DEPTH,
    ensures
        depth_bounded(build_v(rect, segs, w, depth), depth),
    decreases MAX_DEPTH - depth,
{
    if !(segs.len() <= SEGMENT_THRESHOLD || depth >= MAX_DEPTH) {
        let sf = sf_count(segs, rect);
        let tr_s = included_segs(segs, quadrant_tr(rect));
        let br_s = included_segs(segs, quadrant_br(rect));
        lemma_build_depth_bounded(
            quadrant_tl(rect),
            included_segs(segs, quadrant_tl(rect)),
            w + bottom_count(tr_s, quadrant_tr(rect)) + sf,
            (depth + 1) as nat,
        );
        lemma_build_depth_bounded(quadrant_tr(rect), tr_s, w + sf, (depth + 1) as nat);
        lemma_build_depth_bounded(
            quadrant_bl(rect),
            included_segs(segs, quadrant_bl(rect)),
            w + bottom_count(br_s, quadrant_br(rect)),
            (depth + 1) as nat,
        );
        lemma_build_depth_bounded(quadrant_br(rect), br_s, w, (depth + 1) as nat);
    }
}

/// Law: a region holding at most the segment threshold is never split:
/// building from it returns exactly that leaf.
pub proof fn lemma_small_leaf(rect: Rect, segs: Seq<SegV>, w: int, depth: nat)
    requires
        segs.len() <= SEGMENT_THRESHOLD,
    ensures
        build_v(rect, segs, w, depth) == (TreeV::Leaf { rect, segs, winding: w }),
{
}

/// Every branch's bottom-right child keeps its parent's winding number.
pub open spec fn winding_consistent(t: TreeV) -> bool
    decreases t,
{
    match t {
        TreeV::Leaf { .. } => true,
        TreeV::Branch { winding, top_left, top_right, bottom_left, bottom_right, .. } => winding_of(
            *bottom_right,
        ) == winding && winding_consistent(*top_left) && winding_consistent(*top_right)
            && winding_consistent(*bottom_left) && winding_consistent(*bottom_right),
    }
}

/// Law: in every branch the builder produces, the bottom-right child
/// inherits the parent's winding number unchanged.
pub proof fn lemma_build_winding_consistent(rect: Rect, segs: Seq<SegV>, w: int, depth: nat)
    ensures
        winding_consistent(build_v(rect, segs, w, depth)),
    decreases MAX_DEPTH - depth,
{
    if !(segs.len() <= SEGMENT_THRESHOLD || depth >= MAX_DEPTH) {
        let sf = sf_count(segs, rect);
        let tr_s = included_segs(segs, quadrant_tr(rect));
        let br_s = included_segs(segs, quadrant_br(rect));
        lemma_build_winding(quadrant_br(rect), br_s, w, (depth + 1) as nat);
        lemma_build_winding_consistent(
            quadrant_tl(rect),
            included_segs(segs, quadrant_tl(rect)),
            w + bottom_count(tr_s, quadrant_tr(rect)) + sf,
            (depth + 1) as nat,
        );
        lemma_build_winding_consistent(quadrant_tr(rect), tr_s, w + sf, (depth + 1) as nat);
        lemma_build_winding_consistent(
            quadrant_bl(rect),
            included_segs(segs, quadrant_bl(rect)),
            w + bottom_count(br_s, quadrant_br(rect)),
            (depth + 1) as nat,
        );
        lemma_build_winding_consistent(quadrant_br(rect), br_s, w, (depth + 1) as nat);
    }
}

/// Law: for every branch the builder produces, the winding numbers of
/// the four children relate to the parent's value exactly as specified:
/// the bottom-right child inherits it; the top-right child adds the
/// right-edge ray count; the top-left child further adds the top-right
/// quadrant's bottom-boundary count (so the top-left and top-right
/// children differ by exactly that count); and the bottom-left child
/// adds the bottom-right quadrant's bottom-boundary count.
pub proof fn lemma_winding_derivation(rect: Rect, segs: Seq<SegV>, w: int, depth: nat)
    requires
        build_v(rect, segs, w, depth) is Branch,
    ensures
        winding_of(build_v(rect, segs, w, depth)) == w,
        winding_of(branch_br(build_v(rect, segs, w, depth))) == w,
        winding_of(branch_tr(build_v(rect, segs, w, depth))) == w + sf_count(segs, rect),
        winding_of(branch_tl(build_v(rect, segs, w, depth))) - winding_of(
            branch_tr(build_v(rect, segs, w, depth)),
        ) == bottom_count(
            included_segs(segs, quadrant_tr(rect)),
            quadrant_tr(rect),
        ),
        winding_of(branch_bl(build_v(rect, segs, w, depth))) == w + bottom_count(
            included_segs(segs, quadrant_br(rect)),
            quadrant_br(rect),
        ),
{
    let sf = sf_count(segs, rect);
    let tr_s = included_segs(segs, quadrant_tr(rect));
    let br_s = included_segs(segs, quadrant_br(rect));
    lemma_build_winding(
        quadrant_tl(rect),
        included_segs(segs, quadrant_tl(rect)),
        w + bottom_count(tr_s, quadrant_tr(rect)) + sf,
        (depth + 1) as nat,
    );
    lemma_build_winding(quadrant_tr(rect), tr_s, w + sf, (depth + 1) as nat);
    lemma_build_winding(
        quadrant_bl(rect),
        included_segs(segs, quadrant_bl(rect)),
        w + bottom_count(br_s, quadrant_br(rect)),
        (depth + 1) as nat,
    );
    lemma_build_winding(quadrant_br(rect), br_s, w, (depth + 1) as nat);
}

/// Law: tree construction is a pure function of its inputs: two trees
/// built from the same box, segment set and winding number are
/// identical, structure and winding numbers alike.
pub proof fn lemma_build_deterministic(rect: Rect, segs: Seq<SegV>, w: int, a: TreeV, b: TreeV)
    requires
        a == build_v(rect, segs, w, 0),
        b == build_v(rect, segs, w, 0),
    ensures
        a == b,
{
}

} // verus!
