use winding_tree::annotate::LeafArtifact;
use winding_tree::geometry::{Curve, Point, Rect};
use winding_tree::segment::{merge_close_cuts, segment_all, segment_curve, AbstractSegment, RawPath};
use winding_tree::tree::{NodeKind, TreeNode};

fn pt(x: i32, y: i32) -> Point {
    Point { x, y }
}

fn line_seg(id: usize, x0: i32, y0: i32, x1: i32, y1: i32) -> AbstractSegment {
    AbstractSegment { id, curve: Curve::Line(pt(x0, y0), pt(x1, y1)), attributes: vec![] }
}

fn node_height(n: &TreeNode) -> usize {
    match &n.node_kind {
        NodeKind::Leaf(_) => 0,
        NodeKind::Branch(a, b, c, d) => {
            let m = node_height(a)
                .max(node_height(b))
                .max(node_height(c))
                .max(node_height(d));
            m + 1
        }
    }
}

fn leaf_count(n: &TreeNode) -> usize {
    match &n.node_kind {
        NodeKind::Leaf(_) => 1,
        NodeKind::Branch(a, b, c, d) => {
            leaf_count(a) + leaf_count(b) + leaf_count(c) + leaf_count(d)
        }
    }
}

fn square_path_segments() -> Vec<AbstractSegment> {
    vec![
        line_seg(0, 0, 0, 20, 0),
        line_seg(1, 20, 0, 20, 20),
        line_seg(2, 20, 20, 0, 20),
        line_seg(3, 0, 20, 0, 0),
    ]
}

#[test]
fn single_diagonal_is_one_leaf() {
    let bounds = Rect { x0: 0, y0: 0, x1: 10, y1: 10 };
    let seg = line_seg(0, 0, 0, 10, 10);
    let tree = TreeNode::new(bounds, vec![seg.clone()], 0);
    assert_eq!(tree.bounding_box, bounds);
    assert_eq!(tree.initial_winding_number, 0);
    match &tree.node_kind {
        NodeKind::Leaf(segs) => {
            assert_eq!(segs.len(), 1);
            assert_eq!(segs[0], seg);
        }
        NodeKind::Branch(..) => panic!("two segments or fewer must stay a leaf"),
    }
}

#[test]
fn square_path_segments_pass_through() {
    let path = RawPath {
        commands: vec![
            Curve::Line(pt(0, 0), pt(20, 0)),
            Curve::Line(pt(20, 0), pt(20, 20)),
            Curve::Line(pt(20, 20), pt(0, 20)),
            Curve::Line(pt(0, 20), pt(0, 0)),
        ],
        attributes: vec![],
    };
    let all = segment_all(&vec![path]);
    assert_eq!(all.len(), 1);
    let segs = &all[0];
    assert_eq!(segs.len(), 4);
    for (i, seg) in segs.iter().enumerate() {
        assert_eq!(seg.id, i);
        assert!(seg.attributes.is_empty());
    }
    assert_eq!(segs[0].curve, Curve::Line(pt(0, 0), pt(20, 0)));
    assert_eq!(segs[1].curve, Curve::Line(pt(20, 0), pt(20, 20)));
    assert_eq!(segs[2].curve, Curve::Line(pt(20, 20), pt(0, 20)));
    assert_eq!(segs[3].curve, Curve::Line(pt(0, 20), pt(0, 0)));
}

#[test]
fn cubic_with_one_inflection_splits_in_two() {
    // x and y control coordinates both increase, so there is no interior
    // extremum; the curve bends right then left, one inflection point.
    let curve = Curve::Cubic(pt(0, 0), pt(30, 10), pt(70, 90), pt(100, 100));
    let segs = segment_curve(&curve, &vec![], 0);
    assert_eq!(segs.len(), 2);
    assert_eq!(segs[0].id, 0);
    assert_eq!(segs[1].id, 1);
    let (s0, e0) = segs[0].get_points();
    let (s1, e1) = segs[1].get_points();
    assert_eq!(s0, pt(0, 0));
    assert_eq!(e0, s1);
    assert_eq!(e1, pt(100, 100));
    assert!(s0 != e0 && s1 != e1, "the split must fall inside the curve");
}

#[test]
fn quad_with_extremum_splits_at_it() {
    let curve = Curve::Quad(pt(0, 0), pt(10, 20), pt(20, 0));
    let segs = segment_curve(&curve, &vec![], 0);
    assert_eq!(segs.len(), 2);
    let (s0, e0) = segs[0].get_points();
    let (s1, e1) = segs[1].get_points();
    assert_eq!(s0, pt(0, 0));
    // the y extremum sits at the parameter midpoint, which evaluates to (10, 10)
    assert_eq!(e0, pt(10, 10));
    assert_eq!(s1, pt(10, 10));
    assert_eq!(e1, pt(20, 0));
}

#[test]
fn merge_keeps_far_cuts_and_drops_near_ones() {
    let merged = merge_close_cuts(&vec![0, 5, 500, 505, 1000]);
    assert_eq!(merged, vec![0, 500, 1000]);
    let merged = merge_close_cuts(&vec![0, 1000]);
    assert_eq!(merged, vec![0, 1000]);
    let merged = merge_close_cuts(&vec![0, 9, 18, 1000]);
    assert_eq!(merged, vec![0, 18, 1000]);
    let merged = merge_close_cuts(&vec![]);
    assert_eq!(merged, Vec::<i32>::new());
}

#[test]
fn line_bounding_box_is_exact() {
    let seg = line_seg(0, 10, 5, 2, 8);
    let bb = seg.bounding_box();
    assert_eq!(bb, Rect { x0: 2, y0: 5, x1: 10, y1: 8 });
}

#[test]
fn line_split_halves_meet_at_midpoint() {
    let seg = line_seg(0, 0, 0, 10, 10);
    let (a, b) = seg.split_path();
    assert_eq!(a, Curve::Line(pt(0, 0), pt(5, 5)));
    assert_eq!(b, Curve::Line(pt(5, 5), pt(10, 10)));
}

#[test]
fn curve_split_halves_chain() {
    let seg = AbstractSegment {
        id: 0,
        curve: Curve::Cubic(pt(0, 0), pt(30, 10), pt(70, 90), pt(100, 100)),
        attributes: vec![],
    };
    let (a, b) = seg.split_path();
    let first = AbstractSegment { id: 0, curve: a, attributes: vec![] };
    let second = AbstractSegment { id: 0, curve: b, attributes: vec![] };
    assert_eq!(first.get_points().0, pt(0, 0));
    assert_eq!(first.get_points().1, second.get_points().0);
    assert_eq!(second.get_points().1, pt(100, 100));
}

#[test]
fn rebuilding_gives_identical_tree() {
    let bounds = Rect { x0: 0, y0: 0, x1: 20, y1: 20 };
    let a = TreeNode::new(bounds, square_path_segments(), 0);
    let b = TreeNode::new(bounds, square_path_segments(), 0);
    assert_eq!(a, b);
}

#[test]
fn branch_children_tile_the_parent_box() {
    let bounds = Rect { x0: 0, y0: 0, x1: 20, y1: 20 };
    let tree = TreeNode::new(bounds, square_path_segments(), 0);
    match &tree.node_kind {
        NodeKind::Branch(tl, tr, bl, br) => {
            assert_eq!(tl.bounding_box, Rect { x0: 0, y0: 0, x1: 10, y1: 10 });
            assert_eq!(tr.bounding_box, Rect { x0: 10, y0: 0, x1: 20, y1: 10 });
            assert_eq!(bl.bounding_box, Rect { x0: 0, y0: 10, x1: 10, y1: 20 });
            assert_eq!(br.bounding_box, Rect { x0: 10, y0: 10, x1: 20, y1: 20 });
        }
        NodeKind::Leaf(_) => panic!("four segments must force a split"),
    }
}

#[test]
fn bottom_right_child_inherits_parent_winding() {
    let bounds = Rect { x0: 0, y0: 0, x1: 20, y1: 20 };
    let tree = TreeNode::new(bounds, square_path_segments(), 7);
    assert_eq!(tree.initial_winding_number, 7);
    match &tree.node_kind {
        NodeKind::Branch(_, _, _, br) => {
            assert_eq!(br.initial_winding_number, 7);
        }
        NodeKind::Leaf(_) => panic!("four segments must force a split"),
    }
}

#[test]
fn no_node_beyond_maximum_depth() {
    let bounds = Rect { x0: 0, y0: 0, x1: 20, y1: 20 };
    let segments = vec![
        line_seg(0, 0, 0, 20, 20),
        line_seg(1, 0, 20, 20, 0),
        line_seg(2, 0, 10, 20, 10),
        line_seg(3, 10, 0, 10, 20),
    ];
    let tree = TreeNode::new(bounds, segments, 0);
    let h = node_height(&tree);
    assert!(h >= 1, "four crossing segments must split at least once");
    assert!(h <= 4, "no node may exist beyond the maximum depth");
}

#[test]
fn annotate_single_leaf_with_outgoing_shortcut() {
    let bounds = Rect { x0: 0, y0: 0, x1: 10, y1: 10 };
    let seg = line_seg(0, 5, 5, 15, 5);
    let tree = TreeNode::new(bounds, vec![seg], 0);
    let artifacts: Vec<LeafArtifact> = tree.output();
    assert_eq!(artifacts.len(), 1);
    let a = &artifacts[0];
    assert_eq!(a.rect, bounds);
    assert_eq!(a.winding, 0);
    assert_eq!(a.segment_ids, vec![0]);
    assert_eq!(a.shortcuts.len(), 1);
    let sc = &a.shortcuts[0];
    assert!(!sc.incoming);
    assert_eq!(sc.first_half.from, pt(15, 5));
    assert_eq!(sc.first_half.to, pt(15, -7));
    assert_eq!(sc.second_half.from, pt(15, -7));
    assert_eq!(sc.second_half.to, pt(15, -20));
}

#[test]
fn annotate_incoming_shortcut_points_down() {
    let bounds = Rect { x0: 0, y0: 0, x1: 10, y1: 10 };
    let seg = line_seg(0, 15, 5, 5, 5);
    let tree = TreeNode::new(bounds, vec![seg], 0);
    let artifacts = tree.output();
    assert_eq!(artifacts.len(), 1);
    let sc = &artifacts[0].shortcuts[0];
    assert!(sc.incoming);
    assert_eq!(sc.first_half.from, pt(15, -20));
    assert_eq!(sc.first_half.to, pt(15, -7));
    assert_eq!(sc.second_half.from, pt(15, -7));
    assert_eq!(sc.second_half.to, pt(15, 5));
}

#[test]
fn annotate_emits_one_artifact_per_leaf() {
    let bounds = Rect { x0: 0, y0: 0, x1: 20, y1: 20 };
    let tree = TreeNode::new(bounds, square_path_segments(), 0);
    let artifacts = tree.output();
    assert_eq!(artifacts.len(), leaf_count(&tree));
    assert!(artifacts.len() >= 4);
}

#[test]
fn attributes_are_carried_to_every_segment() {
    let path = RawPath {
        commands: vec![
            Curve::Line(pt(0, 0), pt(20, 0)),
            Curve::Quad(pt(20, 0), pt(30, 20), pt(40, 0)),
        ],
        attributes: vec![("stroke".to_string(), "red".to_string())],
    };
    let all = segment_all(&vec![path]);
    let segs = &all[0];
    assert!(segs.len() >= 3, "the quadratic curve must split at its extremum");
    for seg in segs.iter() {
        assert_eq!(seg.attributes, vec![("stroke".to_string(), "red".to_string())]);
    }
}

#[test]
fn duplicate_preserves_the_segment() {
    let seg = AbstractSegment {
        id: 3,
        curve: Curve::Line(pt(1, 2), pt(3, 4)),
        attributes: vec![("class".to_string(), "outline".to_string())],
    };
    let copy = seg.duplicate();
    assert_eq!(copy, seg);
}

#[test]
fn ray_crossing_decrements_right_children() {
    // One vertical segment beyond the right edge crosses the rightward
    // ray from (20, 10) starting above the midline, so the two right
    // quadrant children derive winding -1; the bottom half inherits 0.
    let bounds = Rect { x0: 0, y0: 0, x1: 20, y1: 20 };
    let segments = vec![
        line_seg(0, 25, 5, 25, 15),
        line_seg(1, 0, 0, 5, 5),
        line_seg(2, 0, 20, 5, 15),
    ];
    let tree = TreeNode::new(bounds, segments, 0);
    match &tree.node_kind {
        NodeKind::Branch(tl, tr, bl, br) => {
            assert_eq!(tr.initial_winding_number, -1);
            assert_eq!(tl.initial_winding_number, -1);
            assert_eq!(bl.initial_winding_number, 0);
            assert_eq!(br.initial_winding_number, 0);
        }
        NodeKind::Leaf(_) => panic!("three segments must force a split"),
    }
}

#[test]
fn empty_drawing_builds_an_empty_leaf() {
    let bounds = Rect { x0: 0, y0: 0, x1: 10, y1: 10 };
    let tree = TreeNode::new(bounds, vec![], 0);
    match &tree.node_kind {
        NodeKind::Leaf(segs) => assert!(segs.is_empty()),
        NodeKind::Branch(..) => panic!("an empty drawing must stay a leaf"),
    }
    let artifacts = tree.output();
    assert_eq!(artifacts.len(), 1);
    assert!(artifacts[0].segment_ids.is_empty());
    assert!(artifacts[0].shortcuts.is_empty());
}

#[test]
fn no_paths_yield_no_segments() {
    let all = segment_all(&vec![]);
    assert!(all.is_empty());
}
