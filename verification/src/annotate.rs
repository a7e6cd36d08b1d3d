//! The annotator: walk a built tree and compute, for every leaf, its
//! rectangle, its winding-number label, the ids of its segments, and a
//! shortcut guide line for each segment that crosses the right edge of
//! the leaf's box. Rendering the artifacts is left to the caller.

use vstd::prelude::*;
use crate::geometry::{mid_c, mid_coord, Curve, Point, Rect, curve_end, curve_start};
use crate::primitives::{curve_hits_line, hits_line};
use crate::segment::SegV;
use crate::tree::{tree_rects_wf, tree_view, NodeKind, TreeNode, TreeV};

verus! {

/// The vertical distance above a leaf's top edge where a shortcut guide
/// line ends.
pub const GUIDE_OFFSET: i32 = 20;

/// A directed straight guide line.
#[derive(Clone, Copy, PartialEq, Eq, Structural, Debug)]
pub struct GuideLine {
    pub from: Point,
    pub to: Point,
}

/// A shortcut guide line for a segment crossing a leaf's right edge,
/// split at its midpoint; the first half carries the arrowhead.
#[derive(Clone, Copy, PartialEq, Eq, Structural, Debug)]
pub struct Shortcut {
    pub incoming: bool,
    pub first_half: GuideLine,
    pub second_half: GuideLine,
}

/// The shortcut for one segment in a leaf rectangle. An incoming crossing
/// (start point right of end point) guides from above the box down to the
/// start point; an outgoing crossing guides from the end point up to
/// above the box.
pub open spec fn shortcut_spec(c: Curve, r: Rect) -> Shortcut {
    let s = curve_start(c);
    let e = curve_end(c);
    let top = (r.y0 - GUIDE_OFFSET) as i32;
    let incoming = s.x > e.x;
    let p = if incoming {
        Point { x: s.x, y: top }
    } else {
        e
    };
    let q = if incoming {
        s
    } else {
        Point { x: e.x, y: top }
    };
    let m = Point { x: mid_c(p.x, q.x), y: mid_c(p.y, q.y) };
    Shortcut {
        incoming,
        first_half: GuideLine { from: p, to: m },
        second_half: GuideLine { from: m, to: q },
    }
}

/// Whether a curve crosses the right edge of a rectangle.
pub open spec fn crosses_right_edge(c: Curve, r: Rect) -> bool {
    hits_line(c, Point { x: r.x1, y: r.y0 }, Point { x: r.x1, y: r.y1 })
}

/// The shortcuts of a leaf's segments, in segment order.
pub open spec fn shortcuts_of(segs: Seq<SegV>, r: Rect) -> Seq<Shortcut>
    decreases segs.len(),
{
    if segs.len() == 0 {
        Seq::empty()
    } else {
        let rest = shortcuts_of(segs.drop_last(), r);
        if crosses_right_edge(segs.last().curve, r) {
            rest.push(shortcut_spec(segs.last().curve, r))
        } else {
            rest
        }
    }
}

/// What the annotator emits for one leaf: its rectangle, its winding
/// label, the ids of the segments it holds and their shortcuts.
pub struct LeafArtifact {
    pub rect: Rect,
    pub winding: i64,
    pub segment_ids: Vec<usize>,
    pub shortcuts: Vec<Shortcut>,
}

/// The integer values of a list of segment ids.
pub open spec fn ids_view(v: Seq<usize>) -> Seq<int> {
    v.map_values(|u: usize| u as int)
}

/// The ids of a sequence of segment values.
pub open spec fn seg_ids(segs: Seq<SegV>) -> Seq<int> {
    segs.map_values(|s: SegV| s.id)
}

/// The mathematical value of a leaf artifact.
pub struct ArtifactV {
    pub rect: Rect,
    pub winding: int,
    pub segment_ids: Seq<int>,
    pub shortcuts: Seq<Shortcut>,
}

impl View for LeafArtifact {
    type V = ArtifactV;

    open spec fn view(&self) -> ArtifactV {
        ArtifactV {
            rect: self.rect,
            winding: self.winding as int,
            segment_ids: ids_view(self.segment_ids@),
            shortcuts: self.shortcuts@,
        }
    }
}

/// The artifact of one leaf.
pub open spec fn leaf_artifact(rect: Rect, segs: Seq<SegV>, w: int) -> ArtifactV {
    ArtifactV {
        rect,
        winding: w,
        segment_ids: seg_ids(segs),
        shortcuts: shortcuts_of(segs, rect),
    }
}

/// The annotator's output: the artifacts of all leaves, in pre-order
/// (top-left, top-right, bottom-left, bottom-right).
pub open spec fn output_v(t: TreeV) -> Seq<ArtifactV>
    decreases t,
{
    match t {
        TreeV::Leaf { rect, segs, winding } => seq![leaf_artifact(rect, segs, winding)],
        TreeV::Branch { top_left, top_right, bottom_left, bottom_right, .. } => output_v(*top_left)
            + output_v(*top_right) + output_v(*bottom_left) + output_v(*bottom_right),
    }
}

/// The values of a sequence of leaf artifacts.
pub open spec fn artifacts_view(v: Seq<LeafArtifact>) -> Seq<ArtifactV> {
    v.map_values(|a: LeafArtifact| a@)
}

impl TreeNode {
    /// Walk the finished tree and emit one artifact per leaf, in
    /// pre-order.
    pub fn output(&self) -> (r: Vec<LeafArtifact>)
        requires
            tree_rects_wf(tree_view(*self)),
        ensures
            artifacts_view(r@) == output_v(tree_view(*self)),
        decreases *self,
    {
        match &self.node_kind {
            NodeKind::Branch(a, b, c, d) => {
                let mut out = a.output();
                let ghost va = out@;
                let mut more = b.output();
                let ghost vb = more@;
                out.append(&mut more);
                let mut more = c.output();
                let ghost vc = more@;
                out.append(&mut more);
                let mut more = d.output();
                let ghost vd = more@;
                out.append(&mut more);
                proof {
                    assert(out@ == va + vb + vc + vd);
                    assert(artifacts_view(va + vb + vc + vd) =~= artifacts_view(va)
                        + artifacts_view(vb) + artifacts_view(vc) + artifacts_view(vd));
                }
                out
            },
            NodeKind::Leaf(segments) => {
                let ghost v = crate::segment::segs_view(segments@);
                let edge_top = Point { x: self.bounding_box.x1, y: self.bounding_box.y0 };
                let edge_bottom = Point { x: self.bounding_box.x1, y: self.bounding_box.y1 };
                let guide_top = self.bounding_box.y0 - GUIDE_OFFSET;
                let mut ids: Vec<usize> = Vec::new();
                let mut shortcuts: Vec<Shortcut> = Vec::new();
                let mut i: usize = 0;
                while i < segments.len()
                    invariant
                        i <= segments@.len(),
                        v == crate::segment::segs_view(segments@),
                        v.len() == segments@.len(),
                        edge_top == (Point { x: self.bounding_box.x1, y: self.bounding_box.y0 }),
                        edge_bottom == (Point {
                            x: self.bounding_box.x1,
                            y: self.bounding_box.y1,
                        }),
                        guide_top as int == self.bounding_box.y0 - GUIDE_OFFSET,
                        ids_view(ids@) == seg_ids(v.take(i as int)),
                        shortcuts@ == shortcuts_of(v.take(i as int), self.bounding_box),
                    decreases segments@.len() - i,
                {
                    let seg = &segments[i];
                    proof {
                        assert(v.take(i + 1).drop_last() =~= v.take(i as int));
                        assert(v.take(i + 1).last() == v[i as int]);
                        assert(v[i as int] == segments@[i as int]@);
                    }
                    let ghost prev_ids = ids@;
                    ids.push(seg.id);
                    proof {
                        assert(ids@ == prev_ids.push(seg.id));
                        assert(ids_view(prev_ids).len() == prev_ids.len());
                        assert(seg_ids(v.take(i as int)).len() == i);
                        assert(prev_ids.len() == i);
                        assert forall|j: int| 0 <= j < ids@.len() implies ids_view(ids@)[j]
                            == seg_ids(v.take(i + 1))[j] by {
                            if j < prev_ids.len() {
                                assert(ids_view(prev_ids)[j] == seg_ids(v.take(i as int))[j]);
                                assert(v.take(i + 1)[j] == v.take(i as int)[j]);
                            }
                        }
                        assert(ids_view(ids@) =~= seg_ids(v.take(i + 1)));
                    }
                    if curve_hits_line(&seg.curve, edge_top, edge_bottom) {
                        let (start, end) = seg.get_points();
                        let incoming = start.x > end.x;
                        let p = if incoming {
                            Point { x: start.x, y: guide_top }
                        } else {
                            end
                        };
                        let q = if incoming {
                            start
                        } else {
                            Point { x: end.x, y: guide_top }
                        };
                        let m = Point { x: mid_coord(p.x, q.x), y: mid_coord(p.y, q.y) };
                        shortcuts.push(
                            Shortcut {
                                incoming,
                                first_half: GuideLine { from: p, to: m },
                                second_half: GuideLine { from: m, to: q },
                            },
                        );
                        proof {
                            assert(shortcuts@.last() == shortcut_spec(
                                v[i as int].curve,
                                self.bounding_box,
                            ));
                            assert(shortcuts@ =~= shortcuts_of(v.take(i + 1), self.bounding_box));
                        }
                    }
                    i = i + 1;
                }
                proof {
                    assert(v.take(v.len() as int) =~= v);
                }
                let artifact = LeafArtifact {
                    rect: self.bounding_box,
                    winding: self.initial_winding_number,
                    segment_ids: ids,
                    shortcuts,
                };
                let mut out: Vec<LeafArtifact> = Vec::new();
                out.push(artifact);
                proof {
                    assert(artifacts_view(out@) =~= output_v(tree_view(*self)));
                }
                out
            },
        }
    }
}

} // verus!
