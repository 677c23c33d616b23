use vstd::prelude::*;

use crate::d2gen::{
    d2_source, edge_lines, lemma_node_names_distinct, node_line, node_lines, node_name, shape_keyword,
};
use crate::geometry::{
    bbox_of, bounding_box, cross, doubled_area, greatest_x, greatest_y, least_x, least_y, max_int,
    min_int, polygon_area_x2, shoelace_partial, shoelace_sum,
};
use crate::imaging::{
    binarized, find_contours, point_lists, threshold_binary, traced_point_lists, GrayFrame,
};
use crate::model::{BoundingBox, Diagram, Edge, Node, Point, ShapeKind};

verus! {

/// Intensity above which a pixel counts as ink when the frame is binarized.
pub const BINARIZE_LEVEL: u8 = 128;

/// Contours smaller than this (pixel area) are noise: dust, marker-cap specks,
/// JPEG artifacts.
pub const MIN_SHAPE_AREA_PX: u128 = 20;

/// Contours covering more than `MAX_AREA_NUM / MAX_AREA_DEN` (0.8) of the frame
/// are a traced background or border, not a drawn shape.
pub const MAX_AREA_NUM: u128 = 4;

/// Denominator of the largest fraction of the frame a shape may cover.
pub const MAX_AREA_DEN: u128 = 5;

/// Least solidity, in percent, of a rectangle.
pub const RECTANGLE_MIN_SOLIDITY_PCT: u128 = 85;

/// Least solidity, in percent, of a circle.
pub const CIRCLE_MIN_SOLIDITY_PCT: u128 = 65;

/// Least solidity, in percent, of a diamond.
pub const DIAMOND_MIN_SOLIDITY_PCT: u128 = 35;

/// A contour is either a recognized shape or noise to discard. Classification
/// is by solidity (contour area / bounding-box area), which is analytically
/// well separated for the three recognized shapes when filled: rectangle
/// (axis-aligned) ~1.0, circle ~pi/4 ~= 0.785, diamond (bbox-inscribed
/// rhombus) ~0.5. Anything outside these bands, or too small/too large, is
/// noise.
#[derive(Debug, Clone, Copy, PartialEq, Eq, Structural)]
pub enum Classification {
    Shape(ShapeKind),
    Noise,
}

/// The classification of a contour whose area is `area2 / 2`, whose bounding
/// box has area `bbox_area`, in a frame of `image_area` pixels:
/// - noise when the bounding box is empty;
/// - noise when the area is below `MIN_SHAPE_AREA_PX`, or (for a non-empty
///   frame) above 0.8 of the frame;
/// - otherwise by solidity `area / bbox_area`: at least 0.85 a rectangle, at
///   least 0.65 a circle, at least 0.35 a diamond, below that noise.
pub open spec fn classify(area2: int, bbox_area: int, image_area: int) -> Classification {
    if bbox_area <= 0 {
        Classification::Noise
    } else if area2 < 2 * MIN_SHAPE_AREA_PX || (image_area > 0 && MAX_AREA_DEN * area2 > 2
        * MAX_AREA_NUM * image_area) {
        Classification::Noise
    } else if 100 * area2 >= 2 * RECTANGLE_MIN_SOLIDITY_PCT * bbox_area {
        Classification::Shape(ShapeKind::Rectangle)
    } else if 100 * area2 >= 2 * CIRCLE_MIN_SOLIDITY_PCT * bbox_area {
        Classification::Shape(ShapeKind::Circle)
    } else if 100 * area2 >= 2 * DIAMOND_MIN_SOLIDITY_PCT * bbox_area {
        Classification::Shape(ShapeKind::Diamond)
    } else {
        Classification::Noise
    }
}

/// The area of a bounding box.
pub open spec fn bbox_area(bbox: BoundingBox) -> int {
    bbox.width as int * bbox.height as int
}

/// Classifies the contour through `points`, whose bounding box is `bbox`, in a
/// frame of `image_area` pixels.
pub fn classify_contour(points: &Vec<Point>, bbox: BoundingBox, image_area: u64) -> (c:
    Classification)
    ensures
        c == classify(doubled_area(points@), bbox_area(bbox), image_area as int),
{
    let w: u64 = bbox.width as u64;
    let h: u64 = bbox.height as u64;
    assert(w * h <= 0xffff_ffff * 0xffff_ffffu64) by (nonlinear_arith)
        requires
            w <= 0xffff_ffff,
            h <= 0xffff_ffff,
    ;
    let bbox_area: u64 = w * h;
    if bbox_area == 0 {
        return Classification::Noise;
    }
    let exact: u128 = polygon_area_x2(points);
    // Every threshold compares against less than 2^72, so capping the doubled
    // area at 2^100 decides each comparison the same way and keeps the scaled
    // values within u128.
    let cap: u128 = 0x10_0000_0000_0000_0000_0000_0000;
    let area2: u128 = if exact > cap { cap } else { exact };
    let bb: u128 = bbox_area as u128;
    let img: u128 = image_area as u128;
    if area2 < 2 * MIN_SHAPE_AREA_PX || (img > 0 && MAX_AREA_DEN * area2 > 2 * MAX_AREA_NUM * img) {
        Classification::Noise
    } else if 100 * area2 >= 2 * RECTANGLE_MIN_SOLIDITY_PCT * bb {
        Classification::Shape(ShapeKind::Rectangle)
    } else if 100 * area2 >= 2 * CIRCLE_MIN_SOLIDITY_PCT * bb {
        Classification::Shape(ShapeKind::Circle)
    } else if 100 * area2 >= 2 * DIAMOND_MIN_SOLIDITY_PCT * bb {
        Classification::Shape(ShapeKind::Diamond)
    } else {
        Classification::Noise
    }
}

/// A recognized shape's bounding box and kind, prior to being assigned a
/// diagram node id or label.
#[derive(Debug, Clone, Copy, PartialEq, Eq, Structural)]
pub struct ShapeCandidate {
    pub bbox: BoundingBox,
    pub shape: ShapeKind,
}

/// The candidate a contour yields: its bounding box and kind when it has points
/// and is classified as a shape, nothing otherwise.
pub open spec fn candidate_of(points: Seq<Point>, image_area: int) -> Option<ShapeCandidate> {
    match bbox_of(points) {
        None => None,
        Some(bbox) => match classify(doubled_area(points), bbox_area(bbox), image_area) {
            Classification::Shape(shape) => Some(ShapeCandidate { bbox, shape }),
            Classification::Noise => None,
        },
    }
}

/// The candidates of the given contours, in contour order, noise dropped.
pub open spec fn candidates_of(contours: Seq<Seq<Point>>, image_area: int) -> Seq<ShapeCandidate>
    decreases contours.len(),
{
    if contours.len() == 0 {
        Seq::empty()
    } else {
        let rest = candidates_of(contours.drop_last(), image_area);
        match candidate_of(contours.last(), image_area) {
            Some(c) => rest.push(c),
            None => rest,
        }
    }
}

/// Classifies each traced contour in a frame of `image_area` pixels and keeps
/// the recognized shapes, in contour order.
pub fn classify_contours(contours: &Vec<Vec<Point>>, image_area: u64) -> (shapes: Vec<
    ShapeCandidate,
>)
    ensures
        shapes@ == candidates_of(point_lists(contours@), image_area as int),
{
    let ghost all = point_lists(contours@);
    let mut shapes: Vec<ShapeCandidate> = Vec::new();
    let n: usize = contours.len();
    let mut i: usize = 0;
    while i < n
        invariant
            n == contours@.len(),
            all == point_lists(contours@),
            i <= n,
            shapes@ == candidates_of(all.take(i as int), image_area as int),
        decreases n - i,
    {
        let points = &contours[i];
        assert(all.take(i + 1).drop_last() =~= all.take(i as int));
        assert(all.take(i + 1).last() == points@);
        match bounding_box(points) {
            None => {},
            Some(bbox) => {
                match classify_contour(points, bbox, image_area) {
                    Classification::Shape(shape) => {
                        shapes.push(ShapeCandidate { bbox, shape });
                    },
                    Classification::Noise => {},
                }
            },
        }
        i = i + 1;
    }
    assert(all.take(n as int) =~= all);
    shapes
}

/// The shapes that `detect_shapes` reports for a frame of the given size and
/// pixels: the candidates of the contours traced in the binarized frame.
pub open spec fn detected_shapes(width: u32, height: u32, pixels: Seq<u8>) -> Seq<ShapeCandidate> {
    candidates_of(
        traced_point_lists(width, height, binarized(pixels, BINARIZE_LEVEL)),
        width as int * height as int,
    )
}

/// Binarizes the frame, extracts contours, and classifies each into a
/// recognized shape or discards it as noise. The frame must have fewer than
/// `i32::MAX` pixels, the range within which the contour tracer neither
/// overflows its coordinates nor its border count.
pub fn detect_shapes(gray: &GrayFrame) -> (shapes: Vec<ShapeCandidate>)
    requires
        (gray.frame_width() as int) * (gray.frame_height() as int) < 0x7fff_ffff,
    ensures
        shapes@ == detected_shapes(gray.frame_width(), gray.frame_height(), gray.frame_pixels()),
{
    let width: u32 = gray.width();
    let height: u32 = gray.height();
    let binary = threshold_binary(width, height, gray.pixels(), BINARIZE_LEVEL);
    assert(width as u64 * height as u64 <= 0xffff_ffff * 0xffff_ffffu64) by (nonlinear_arith)
        requires
            width <= 0xffff_ffff,
            height <= 0xffff_ffff,
    ;
    let image_area: u64 = (width as u64) * (height as u64);
    let contours = find_contours(width, height, &binary);
    classify_contours(&contours, image_area)
}

/// `nodes` are the diagram nodes of `shapes`: node `i` has id `i`, the kind and
/// bounding box of shape `i`, and no label.
pub open spec fn nodes_of_shapes(nodes: Seq<Node>, shapes: Seq<ShapeCandidate>) -> bool {
    &&& nodes.len() == shapes.len()
    &&& forall|i: int|
        0 <= i < nodes.len() ==> {
            &&& #[trigger] nodes[i].id == i
            &&& nodes[i].shape == shapes[i].shape
            &&& nodes[i].bbox == shapes[i].bbox
            &&& nodes[i].label is None
        }
}

/// Turns detected shapes into a diagram: one unlabeled node per shape, numbered
/// in order from 0, and no edges.
#[verifier::spinoff_prover]
pub fn diagram_from_shapes(shapes: &Vec<ShapeCandidate>) -> (diagram: Diagram)
    ensures
        nodes_of_shapes(diagram.nodes@, shapes@),
        diagram.edges@.len() == 0,
{
    let mut nodes: Vec<Node> = Vec::new();
    let n: usize = shapes.len();
    let mut i: usize = 0;
    while i < n
        invariant
            n == shapes@.len(),
            i <= n,
            nodes_of_shapes(nodes@, shapes@.take(i as int)),
        decreases n - i,
    {
        let candidate = shapes[i];
        let ghost before = nodes@;
        let ghost done = shapes@.take(i as int);
        let ghost next = shapes@.take(i + 1);
        assert(next.drop_last() =~= done);
        assert(next[i as int] == candidate);
        nodes.push(Node { id: i, shape: candidate.shape, label: None, bbox: candidate.bbox });
        assert(nodes@.drop_last() =~= before);
        assert forall|j: int| 0 <= j < nodes@.len() implies {
            &&& #[trigger] nodes@[j].id == j
            &&& nodes@[j].shape == next[j].shape
            &&& nodes@[j].bbox == next[j].bbox
            &&& nodes@[j].label is None
        } by {
            if j < i {
                assert(nodes@[j] == before[j]);
                assert(next[j] == done[j]);
                assert(before[j].id == j);
            } else {
                assert(j == i);
                assert(nodes@[j] == nodes@.last());
            }
        }
        i = i + 1;
    }
    assert(shapes@.take(n as int) =~= shapes@);
    let edges: Vec<Edge> = Vec::new();
    Diagram { nodes, edges }
}

/// Builds a `Diagram` from detected shapes. Edge/connector detection and OCR
/// labels are not implemented yet, so every node has no label and there are no
/// edges. The frame must have fewer than `i32::MAX` pixels, as for
/// `detect_shapes`.
pub fn build_diagram(gray: &GrayFrame) -> (diagram: Diagram)
    requires
        (gray.frame_width() as int) * (gray.frame_height() as int) < 0x7fff_ffff,
    ensures
        nodes_of_shapes(
            diagram.nodes@,
            detected_shapes(gray.frame_width(), gray.frame_height(), gray.frame_pixels()),
        ),
        diagram.edges@.len() == 0,
{
    let shapes = detect_shapes(gray);
    diagram_from_shapes(&shapes)
}

// ---------------------------------------------------------------------------
// Laws
// ---------------------------------------------------------------------------

/// A contour whose area is below `MIN_SHAPE_AREA_PX`, or which covers more than
/// 0.8 of a non-empty frame, is never classified as a shape.
pub proof fn law_small_or_frame_filling_contours_are_noise(
    points: Seq<Point>,
    bbox: BoundingBox,
    image_area: int,
)
    requires
        doubled_area(points) < 2 * MIN_SHAPE_AREA_PX || (image_area > 0 && MAX_AREA_DEN
            * doubled_area(points) > 2 * MAX_AREA_NUM * image_area),
    ensures
        classify(doubled_area(points), bbox_area(bbox), image_area) == Classification::Noise,
{
}

/// The outline of the axis-aligned rectangle with corners `(x0, y0)` and
/// `(x1, y1)`, through its four corners.
pub open spec fn rectangle_outline(x0: i32, y0: i32, x1: i32, y1: i32) -> Seq<Point> {
    seq![
        Point { x: x0, y: y0 },
        Point { x: x1, y: y0 },
        Point { x: x1, y: y1 },
        Point { x: x0, y: y1 },
    ]
}

/// The outline of the diamond inscribed in the box from `(x0, y0)` to
/// `(x1, y1)`: its vertices lie on the four sides of the box, at column `cx`
/// (top and bottom) and row `cy` (left and right).
pub open spec fn diamond_outline(x0: i32, y0: i32, x1: i32, y1: i32, cx: i32, cy: i32) -> Seq<
    Point,
> {
    seq![
        Point { x: cx, y: y0 },
        Point { x: x1, y: cy },
        Point { x: cx, y: y1 },
        Point { x: x0, y: cy },
    ]
}

#[verifier::spinoff_prover]
proof fn lemma_quad_extremes(pts: Seq<Point>)
    requires
        pts.len() == 4,
    ensures
        least_x(pts) == min_int(min_int(min_int(pts[0].x as int, pts[1].x as int), pts[2].x as int), pts[3].x as int),
        least_y(pts) == min_int(min_int(min_int(pts[0].y as int, pts[1].y as int), pts[2].y as int), pts[3].y as int),
        greatest_x(pts) == max_int(max_int(max_int(pts[0].x as int, pts[1].x as int), pts[2].x as int), pts[3].x as int),
        greatest_y(pts) == max_int(max_int(max_int(pts[0].y as int, pts[1].y as int), pts[2].y as int), pts[3].y as int),
        shoelace_sum(pts) == cross(pts[0], pts[1]) + cross(pts[1], pts[2]) + cross(pts[2], pts[3])
            + cross(pts[3], pts[0]),
{
    let p3 = pts.drop_last();
    let p2 = p3.drop_last();
    let p1 = p2.drop_last();
    let p0 = p1.drop_last();
    assert(p0.len() == 0);
    assert(p1.last() == pts[0]);
    assert(p2.last() == pts[1]);
    assert(p3.last() == pts[2]);
    assert(least_x(p0) == i32::MAX as int);
    assert(least_y(p0) == i32::MAX as int);
    assert(greatest_x(p0) == i32::MIN as int);
    assert(greatest_y(p0) == i32::MIN as int);
    reveal_with_fuel(shoelace_partial, 5);
    reveal_with_fuel(least_x, 5);
    reveal_with_fuel(least_y, 5);
    reveal_with_fuel(greatest_x, 5);
    reveal_with_fuel(greatest_y, 5);
}

/// Every axis-aligned rectangle whose area is at least `MIN_SHAPE_AREA_PX` and
/// at most 0.8 of the frame is recognized as a rectangle, with its own
/// bounding box (solidity 1).
#[verifier::spinoff_prover]
pub proof fn law_rectangles_are_recognized(x0: i32, y0: i32, x1: i32, y1: i32, image_area: int)
    requires
        x0 < x1,
        y0 < y1,
        (x1 - x0) * (y1 - y0) >= MIN_SHAPE_AREA_PX,
        image_area > 0 ==> MAX_AREA_DEN * ((x1 - x0) * (y1 - y0)) <= MAX_AREA_NUM * image_area,
    ensures
        candidate_of(rectangle_outline(x0, y0, x1, y1), image_area) == Some(
            ShapeCandidate {
                bbox: BoundingBox {
                    x: x0 as u32,
                    y: y0 as u32,
                    width: (x1 - x0) as u32,
                    height: (y1 - y0) as u32,
                },
                shape: ShapeKind::Rectangle,
            },
        ),
{
    let pts = rectangle_outline(x0, y0, x1, y1);
    lemma_quad_extremes(pts);
    let w: int = x1 - x0;
    let h: int = y1 - y0;
    assert(shoelace_sum(pts) == 2 * (w * h)) by (nonlinear_arith)
        requires
            shoelace_sum(pts) == cross(pts[0], pts[1]) + cross(pts[1], pts[2]) + cross(
                pts[2],
                pts[3],
            ) + cross(pts[3], pts[0]),
            pts[0] == (Point { x: x0, y: y0 }),
            pts[1] == (Point { x: x1, y: y0 }),
            pts[2] == (Point { x: x1, y: y1 }),
            pts[3] == (Point { x: x0, y: y1 }),
            w == x1 - x0,
            h == y1 - y0,
    ;
    assert(w * h > 0) by (nonlinear_arith)
        requires
            w > 0,
            h > 0,
    ;
    let b = bbox_of(pts).unwrap();
    assert(b.width as int == w);
    assert(b.height as int == h);
    let a: int = w * h;
    assert(bbox_area(b) == a);
    assert(doubled_area(pts) == 2 * a);
    assert(!(2 * a < 2 * MIN_SHAPE_AREA_PX));
    assert(!(image_area > 0 && MAX_AREA_DEN * (2 * a) > 2 * MAX_AREA_NUM * image_area));
    assert(100 * (2 * a) >= 2 * RECTANGLE_MIN_SOLIDITY_PCT * a);
    assert(classify(doubled_area(pts), bbox_area(b), image_area) == Classification::Shape(
        ShapeKind::Rectangle,
    ));
}

/// Every diamond inscribed in its bounding box, whose area (half that of the
/// box) is at least `MIN_SHAPE_AREA_PX` and at most 0.8 of the frame, is
/// recognized as a diamond (solidity 1/2).
#[verifier::spinoff_prover]
pub proof fn law_inscribed_diamonds_are_recognized(
    x0: i32,
    y0: i32,
    x1: i32,
    y1: i32,
    cx: i32,
    cy: i32,
    image_area: int,
)
    requires
        x0 <= cx <= x1,
        y0 <= cy <= y1,
        x0 < x1,
        y0 < y1,
        (x1 - x0) * (y1 - y0) >= 2 * MIN_SHAPE_AREA_PX,
        image_area > 0 ==> MAX_AREA_DEN * ((x1 - x0) * (y1 - y0)) <= 2 * MAX_AREA_NUM * image_area,
    ensures
        candidate_of(diamond_outline(x0, y0, x1, y1, cx, cy), image_area) == Some(
            ShapeCandidate {
                bbox: BoundingBox {
                    x: x0 as u32,
                    y: y0 as u32,
                    width: (x1 - x0) as u32,
                    height: (y1 - y0) as u32,
                },
                shape: ShapeKind::Diamond,
            },
        ),
{
    let pts = diamond_outline(x0, y0, x1, y1, cx, cy);
    lemma_quad_extremes(pts);
    let w: int = x1 - x0;
    let h: int = y1 - y0;
    assert(shoelace_sum(pts) == w * h) by (nonlinear_arith)
        requires
            shoelace_sum(pts) == cross(pts[0], pts[1]) + cross(pts[1], pts[2]) + cross(
                pts[2],
                pts[3],
            ) + cross(pts[3], pts[0]),
            pts[0] == (Point { x: cx, y: y0 }),
            pts[1] == (Point { x: x1, y: cy }),
            pts[2] == (Point { x: cx, y: y1 }),
            pts[3] == (Point { x: x0, y: cy }),
            w == x1 - x0,
            h == y1 - y0,
    ;
    assert(w * h > 0) by (nonlinear_arith)
        requires
            w > 0,
            h > 0,
    ;
    let b = bbox_of(pts).unwrap();
    assert(b.width as int == w);
    assert(b.height as int == h);
    let a: int = w * h;
    assert(bbox_area(b) == a);
    assert(doubled_area(pts) == a);
    assert(!(a < 2 * MIN_SHAPE_AREA_PX));
    assert(!(image_area > 0 && MAX_AREA_DEN * a > 2 * MAX_AREA_NUM * image_area));
    assert(!(100 * a >= 2 * RECTANGLE_MIN_SOLIDITY_PCT * a));
    assert(!(100 * a >= 2 * CIRCLE_MIN_SOLIDITY_PCT * a));
    assert(100 * a >= 2 * DIAMOND_MIN_SOLIDITY_PCT * a);
    assert(classify(doubled_area(pts), bbox_area(b), image_area) == Classification::Shape(
        ShapeKind::Diamond,
    ));
}

/// The nodes of a built diagram carry pairwise distinct ids, so `generate`
/// gives them pairwise distinct D2 identifiers.
pub proof fn law_built_nodes_have_distinct_names(nodes: Seq<Node>, shapes: Seq<ShapeCandidate>)
    requires
        nodes_of_shapes(nodes, shapes),
    ensures
        forall|i: int, j: int|
            0 <= i < nodes.len() && 0 <= j < nodes.len() && i != j ==> node_name(
                #[trigger] nodes[i].id as nat,
            ) != node_name(#[trigger] nodes[j].id as nat),
{
    assert forall|i: int, j: int|
        0 <= i < nodes.len() && 0 <= j < nodes.len() && i != j implies node_name(
        #[trigger] nodes[i].id as nat,
    ) != node_name(#[trigger] nodes[j].id as nat) by {
        lemma_node_names_distinct(nodes[i].id as nat, nodes[j].id as nat);
    }
}

/// What shapes are detected depends only on which pixels count as ink: two
/// frames of the same size whose pixels agree on being above
/// `BINARIZE_LEVEL` yield the same shapes.
pub proof fn law_detection_depends_only_on_ink(
    width: u32,
    height: u32,
    pixels1: Seq<u8>,
    pixels2: Seq<u8>,
)
    requires
        pixels1.len() == pixels2.len(),
        forall|i: int|
            0 <= i < pixels1.len() ==> (#[trigger] pixels1[i] > BINARIZE_LEVEL) == (pixels2[i]
                > BINARIZE_LEVEL),
    ensures
        detected_shapes(width, height, pixels1) == detected_shapes(width, height, pixels2),
{
    assert(binarized(pixels1, BINARIZE_LEVEL) =~= binarized(pixels2, BINARIZE_LEVEL));
}

/// The D2 line of an unlabeled node with id `id` and kind `shape`: its
/// identifier doubles as its caption.
pub open spec fn unlabeled_node_line(id: nat, shape: ShapeKind) -> Seq<char> {
    node_name(id) + ": "@ + node_name(id) + " {shape: "@ + shape_keyword(shape) + "}\n"@
}

/// One unlabeled node line per shape, numbered in order from 0.
pub open spec fn shape_lines(shapes: Seq<ShapeCandidate>) -> Seq<char>
    decreases shapes.len(),
{
    if shapes.len() == 0 {
        Seq::empty()
    } else {
        shape_lines(shapes.drop_last()) + unlabeled_node_line(
            (shapes.len() - 1) as nat,
            shapes.last().shape,
        )
    }
}

proof fn lemma_node_lines_of_shapes(nodes: Seq<Node>, shapes: Seq<ShapeCandidate>)
    requires
        nodes_of_shapes(nodes, shapes),
    ensures
        node_lines(nodes) == shape_lines(shapes),
    decreases shapes.len(),
{
    if shapes.len() > 0 {
        let n = shapes.len() - 1;
        let rest = nodes.drop_last();
        let srest = shapes.drop_last();
        assert forall|i: int| 0 <= i < rest.len() implies {
            &&& #[trigger] rest[i].id == i
            &&& rest[i].shape == srest[i].shape
            &&& rest[i].bbox == srest[i].bbox
            &&& rest[i].label is None
        } by {
            assert(rest[i] == nodes[i]);
            assert(srest[i] == shapes[i]);
            assert(nodes[i].id == i);
        }
        lemma_node_lines_of_shapes(rest, srest);
        assert(nodes[n].id == n);
        assert(nodes.last() == nodes[n]);
        assert(node_line(nodes.last()) == unlabeled_node_line(n as nat, shapes.last().shape));
    }
}

/// The D2 source of a diagram built from detected shapes is one unlabeled
/// node line per shape, `node<i>: node<i> {shape: <kind>}`, in detection
/// order, and no edge lines.
pub proof fn law_built_diagram_source(diagram: Diagram, shapes: Seq<ShapeCandidate>)
    requires
        nodes_of_shapes(diagram.nodes@, shapes),
        diagram.edges@.len() == 0,
    ensures
        d2_source(diagram) == shape_lines(shapes),
{
    lemma_node_lines_of_shapes(diagram.nodes@, shapes);
    assert(edge_lines(diagram.edges@) == Seq::<char>::empty());
    assert(node_lines(diagram.nodes@) + Seq::<char>::empty() =~= node_lines(diagram.nodes@));
}

/// How a contour is classified, by its doubled area `area2`, its bounding-box
/// area `bbox_area` and the frame area `image_area`:
/// - an empty bounding box, an area below 20 pixels, or (for a non-empty
///   frame) an area above 0.8 of the frame make it noise;
/// - otherwise only the solidity `area / bbox_area` counts, whatever the size:
///   at least 0.85 is a rectangle, from 0.65 up to 0.85 a circle, from 0.35 up
///   to 0.65 a diamond, below 0.35 noise.
pub proof fn law_classification_bands(area2: int, bbox_area: int, image_area: int)
    ensures
        bbox_area <= 0 ==> classify(area2, bbox_area, image_area) == Classification::Noise,
        area2 < 40 ==> classify(area2, bbox_area, image_area) == Classification::Noise,
        image_area > 0 && 5 * area2 > 8 * image_area ==> classify(area2, bbox_area, image_area)
            == Classification::Noise,
        bbox_area > 0 && area2 >= 40 && (image_area > 0 ==> 5 * area2 <= 8 * image_area) ==> {
            &&& 100 * area2 >= 170 * bbox_area ==> classify(area2, bbox_area, image_area)
                == Classification::Shape(ShapeKind::Rectangle)
            &&& 130 * bbox_area <= 100 * area2 < 170 * bbox_area ==> classify(
                area2,
                bbox_area,
                image_area,
            ) == Classification::Shape(ShapeKind::Circle)
            &&& 70 * bbox_area <= 100 * area2 < 130 * bbox_area ==> classify(
                area2,
                bbox_area,
                image_area,
            ) == Classification::Shape(ShapeKind::Diamond)
            &&& 100 * area2 < 70 * bbox_area ==> classify(area2, bbox_area, image_area)
                == Classification::Noise
        },
{
}

/// The candidates of one contour: its candidate when it is classified as a
/// shape, nothing otherwise.
pub proof fn law_candidates_of_one_contour(points: Seq<Point>, image_area: int)
    ensures
        candidates_of(seq![points], image_area) == match candidate_of(points, image_area) {
            Some(c) => seq![c],
            None => Seq::<ShapeCandidate>::empty(),
        },
{
    let one = seq![points];
    assert(one.drop_last() =~= Seq::<Seq<Point>>::empty());
    assert(one.last() == points);
    assert(candidates_of(Seq::<Seq<Point>>::empty(), image_area) == Seq::<ShapeCandidate>::empty());
    match candidate_of(points, image_area) {
        Some(c) => {
            assert(Seq::<ShapeCandidate>::empty().push(c) =~= seq![c]);
        },
        None => {},
    }
}

/// The candidates of two lists of contours, one after the other, are the
/// candidates of the first followed by those of the second: no contour's
/// shape is dropped, repeated or moved, however many there are.
pub proof fn law_candidates_concatenate(
    first: Seq<Seq<Point>>,
    second: Seq<Seq<Point>>,
    image_area: int,
)
    ensures
        candidates_of(first + second, image_area) == candidates_of(first, image_area)
            + candidates_of(second, image_area),
    decreases second.len(),
{
    if second.len() == 0 {
        assert(first + second =~= first);
        assert(candidates_of(first, image_area) + Seq::empty() =~= candidates_of(first, image_area));
    } else {
        law_candidates_concatenate(first, second.drop_last(), image_area);
        assert((first + second).drop_last() =~= first + second.drop_last());
        assert((first + second).last() == second.last());
        let a = candidates_of(first, image_area);
        let b = candidates_of(second.drop_last(), image_area);
        match candidate_of(second.last(), image_area) {
            Some(c) => {
                assert((a + b).push(c) =~= a + b.push(c));
            },
            None => {},
        }
    }
}

proof fn lemma_candidates_come_from_contours(contours: Seq<Seq<Point>>, image_area: int)
    ensures
        forall|k: int|
            0 <= k < candidates_of(contours, image_area).len() ==> exists|j: int|
                0 <= j < contours.len() && candidate_of(contours[j], image_area) == Some(
                    #[trigger] candidates_of(contours, image_area)[k],
                ),
    decreases contours.len(),
{
    if contours.len() > 0 {
        let rest = contours.drop_last();
        lemma_candidates_come_from_contours(rest, image_area);
        let out = candidates_of(contours, image_area);
        let prev = candidates_of(rest, image_area);
        assert forall|k: int| 0 <= k < out.len() implies exists|j: int|
            0 <= j < contours.len() && candidate_of(contours[j], image_area) == Some(
                #[trigger] out[k],
            ) by {
            if k < prev.len() {
                assert(out[k] == prev[k]);
                let j = choose|j: int|
                    0 <= j < rest.len() && candidate_of(rest[j], image_area) == Some(
                        #[trigger] prev[k],
                    );
                assert(contours[j] == rest[j]);
            } else {
                assert(candidate_of(contours[contours.len() - 1], image_area) == Some(out[k]));
            }
        }
    }
}

/// Every shape detected in a non-empty frame comes from a traced contour of
/// the binarized frame that has that bounding box, an area of at least 20
/// pixels, an area of at most 0.8 of the frame (`width * height`), and a
/// solidity of at least 0.35.
#[verifier::spinoff_prover]
pub proof fn law_detected_shapes_fit_the_frame(width: u32, height: u32, pixels: Seq<u8>)
    requires
        width as int * height as int > 0,
    ensures
        ({
            let contours = traced_point_lists(width, height, binarized(pixels, 128));
            let shapes = detected_shapes(width, height, pixels);
            forall|k: int|
                0 <= k < shapes.len() ==> exists|j: int|
                    0 <= j < contours.len() && bbox_of(contours[j]) == Some(
                        (#[trigger] shapes[k]).bbox,
                    ) && 40 <= doubled_area(contours[j]) && 5 * doubled_area(contours[j]) <= 8 * (
                    width as int * height as int) && 100 * doubled_area(contours[j]) >= 70 * (
                    shapes[k].bbox.width as int * shapes[k].bbox.height as int)
        }),
{
    let contours = traced_point_lists(width, height, binarized(pixels, 128));
    let img = width as int * height as int;
    let shapes = detected_shapes(width, height, pixels);
    assert(shapes == candidates_of(contours, img));
    lemma_candidates_come_from_contours(contours, img);
    assert forall|k: int| 0 <= k < shapes.len() implies exists|j: int|
        0 <= j < contours.len() && bbox_of(contours[j]) == Some((#[trigger] shapes[k]).bbox) && 40
            <= doubled_area(contours[j]) && 5 * doubled_area(contours[j]) <= 8 * img && 100
            * doubled_area(contours[j]) >= 70 * (shapes[k].bbox.width as int
            * shapes[k].bbox.height as int) by {
        let j = choose|j: int|
            0 <= j < contours.len() && candidate_of(contours[j], img) == Some(#[trigger] shapes[k]);
        let pts = contours[j];
        let b = bbox_of(pts)->0;
        assert(bbox_of(pts) == Some(b));
        assert(b == shapes[k].bbox);
        let c = classify(doubled_area(pts), bbox_area(b), img);
        assert(c is Shape);
        assert(bbox_area(b) == b.width as int * b.height as int);
        assert(40 <= doubled_area(pts));
        assert(5 * doubled_area(pts) <= 8 * img);
        assert(100 * doubled_area(pts) >= 70 * bbox_area(b));
    }
}

} // verus!
