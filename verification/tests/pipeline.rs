use delinea::geometry::{bounding_box, polygon_area_x2};
use delinea::pipeline::{classify_contour, classify_contours, diagram_from_shapes, Classification};
use delinea::{build_diagram, detect_shapes, BoundingBox, GrayFrame, Point, ShapeCandidate, ShapeKind};
use image::{GrayImage, Luma};

fn blank(width: u32, height: u32) -> GrayImage {
    GrayImage::from_pixel(width, height, Luma([0]))
}

fn fill_rect(img: &mut GrayImage, x: u32, y: u32, w: u32, h: u32) {
    for py in y..y + h {
        for px in x..x + w {
            img.put_pixel(px, py, Luma([255]));
        }
    }
}

fn fill_circle(img: &mut GrayImage, cx: i32, cy: i32, r: i32) {
    for py in (cy - r).max(0)..(cy + r).min(img.height() as i32) {
        for px in (cx - r).max(0)..(cx + r).min(img.width() as i32) {
            let dx = px - cx;
            let dy = py - cy;
            if dx * dx + dy * dy <= r * r {
                img.put_pixel(px as u32, py as u32, Luma([255]));
            }
        }
    }
}

fn fill_diamond(img: &mut GrayImage, cx: i32, cy: i32, r: i32) {
    for py in (cy - r).max(0)..(cy + r).min(img.height() as i32) {
        for px in (cx - r).max(0)..(cx + r).min(img.width() as i32) {
            let dx = (px - cx).abs();
            let dy = (py - cy).abs();
            if dx + dy <= r {
                img.put_pixel(px as u32, py as u32, Luma([255]));
            }
        }
    }
}

/// Scatters small noise speckles (1-3px) across the image, simulating
/// whiteboard glare/dust/texture that isn't part of a drawn shape.
fn scatter_speckles(img: &mut GrayImage, count: u32) {
    let (w, h) = (img.width(), img.height());
    for i in 0..count {
        let x = (i * 37 + 5) % w.max(1);
        let y = (i * 53 + 7) % h.max(1);
        img.put_pixel(x, y, Luma([255]));
        if x + 1 < w {
            img.put_pixel(x + 1, y, Luma([255]));
        }
    }
}

fn frame(img: GrayImage) -> GrayFrame {
    let (w, h) = (img.width(), img.height());
    GrayFrame::from_raw(w, h, img.into_raw()).unwrap()
}

fn p(x: i32, y: i32) -> Point {
    Point { x, y }
}

#[test]
fn classifies_a_filled_rectangle() {
    let mut img = blank(100, 100);
    fill_rect(&mut img, 20, 20, 40, 30);

    let shapes = detect_shapes(&frame(img));
    assert_eq!(shapes.len(), 1);
    assert_eq!(shapes[0].shape, ShapeKind::Rectangle);
}

#[test]
fn classifies_a_filled_circle() {
    let mut img = blank(100, 100);
    fill_circle(&mut img, 50, 50, 25);

    let shapes = detect_shapes(&frame(img));
    assert_eq!(shapes.len(), 1);
    assert_eq!(shapes[0].shape, ShapeKind::Circle);
}

#[test]
fn classifies_a_filled_diamond() {
    let mut img = blank(100, 100);
    fill_diamond(&mut img, 50, 50, 30);

    let shapes = detect_shapes(&frame(img));
    assert_eq!(shapes.len(), 1);
    assert_eq!(shapes[0].shape, ShapeKind::Diamond);
}

#[test]
fn ignores_small_noise_speckles() {
    let mut img = blank(120, 120);
    fill_rect(&mut img, 30, 30, 40, 30);
    scatter_speckles(&mut img, 15);

    let shapes = detect_shapes(&frame(img));
    assert_eq!(
        shapes.len(),
        1,
        "expected only the real rectangle, speckles should be filtered as noise"
    );
    assert_eq!(shapes[0].shape, ShapeKind::Rectangle);
}

#[test]
fn ignores_a_near_full_frame_background_contour() {
    let mut img = blank(100, 100);
    // A border frame spanning almost the entire image (e.g. a whiteboard
    // edge or vignette), plus one real shape.
    for x in 0..100u32 {
        img.put_pixel(x, 0, Luma([255]));
        img.put_pixel(x, 99, Luma([255]));
    }
    for y in 0..100u32 {
        img.put_pixel(0, y, Luma([255]));
        img.put_pixel(99, y, Luma([255]));
    }
    fill_rect(&mut img, 40, 40, 20, 20);

    let shapes = detect_shapes(&frame(img));
    assert!(
        shapes
            .iter()
            .all(|s| s.bbox.width < 90 && s.bbox.height < 90),
        "the near-full-frame border should not be classified as a shape"
    );
    assert!(
        shapes.iter().any(|s| s.shape == ShapeKind::Rectangle),
        "the real small rectangle should still be detected"
    );
}

#[test]
fn detects_correct_shapes_in_a_noisy_realistic_scene() {
    let mut img = blank(200, 200);
    fill_rect(&mut img, 10, 10, 40, 30);
    fill_circle(&mut img, 120, 30, 20);
    fill_diamond(&mut img, 60, 130, 25);
    scatter_speckles(&mut img, 40);

    let shapes = detect_shapes(&frame(img));
    let mut kinds: Vec<ShapeKind> = shapes.iter().map(|s| s.shape).collect();
    kinds.sort_by_key(|k| format!("{k:?}"));

    assert_eq!(
        kinds,
        vec![ShapeKind::Circle, ShapeKind::Diamond, ShapeKind::Rectangle],
        "expected exactly the three drawn shapes, noise excluded: {shapes:?}"
    );
}

#[test]
fn build_diagram_has_no_labels_or_edges_yet() {
    let mut img = blank(100, 100);
    fill_rect(&mut img, 20, 20, 40, 30);

    let diagram = build_diagram(&frame(img));
    assert_eq!(diagram.nodes.len(), 1);
    assert_eq!(diagram.nodes[0].label, None);
    assert!(diagram.edges.is_empty());
}

#[test]
fn detected_rectangle_has_the_traced_bounding_box() {
    let mut img = blank(100, 100);
    fill_rect(&mut img, 20, 20, 40, 30);
    let shapes = detect_shapes(&frame(img));
    assert_eq!(
        shapes,
        vec![ShapeCandidate {
            bbox: BoundingBox { x: 20, y: 20, width: 39, height: 29 },
            shape: ShapeKind::Rectangle,
        }]
    );
}

#[test]
fn binarizing_keeps_only_intensities_above_128() {
    // A block at exactly 128 is background; the same block at 129 is ink.
    let mut dim = blank(60, 60);
    for y in 10..40 {
        for x in 10..40 {
            dim.put_pixel(x, y, Luma([128]));
        }
    }
    assert!(detect_shapes(&frame(dim)).is_empty());

    let mut bright = blank(60, 60);
    for y in 10..40 {
        for x in 10..40 {
            bright.put_pixel(x, y, Luma([129]));
        }
    }
    let shapes = detect_shapes(&frame(bright));
    assert_eq!(shapes.len(), 1);
    assert_eq!(shapes[0].shape, ShapeKind::Rectangle);
}

#[test]
fn build_diagram_numbers_nodes_in_detection_order() {
    let mut img = blank(200, 200);
    fill_rect(&mut img, 10, 10, 40, 30);
    fill_circle(&mut img, 120, 30, 20);
    fill_diamond(&mut img, 60, 130, 25);
    let f = frame(img);
    let shapes = detect_shapes(&f);
    let diagram = build_diagram(&f);
    assert_eq!(diagram.nodes.len(), 3);
    for (i, node) in diagram.nodes.iter().enumerate() {
        assert_eq!(node.id, i);
        assert_eq!(node.shape, shapes[i].shape);
        assert_eq!(node.bbox, shapes[i].bbox);
        assert_eq!(node.label, None);
    }
    assert!(diagram.edges.is_empty());
}

#[test]
fn frame_rejects_a_buffer_of_the_wrong_length() {
    assert!(GrayFrame::from_raw(4, 3, vec![0; 11]).is_none());
    assert!(GrayFrame::from_raw(4, 3, vec![0; 13]).is_none());
    let f = GrayFrame::from_raw(4, 3, vec![7; 12]).unwrap();
    assert_eq!((f.width(), f.height(), f.pixels().len()), (4, 3, 12));
}

#[test]
fn shoelace_area_of_simple_polygons() {
    // 40 x 30 rectangle: area 1200, doubled 2400, either orientation.
    let rect = vec![p(0, 0), p(40, 0), p(40, 30), p(0, 30)];
    assert_eq!(polygon_area_x2(&rect), 2400);
    let rev: Vec<Point> = rect.iter().rev().copied().collect();
    assert_eq!(polygon_area_x2(&rev), 2400);
    // Right triangle with legs 3 and 5: area 7.5, doubled 15.
    assert_eq!(polygon_area_x2(&vec![p(0, 0), p(3, 0), p(0, 5)]), 15);
    // Fewer than three points have no area.
    assert_eq!(polygon_area_x2(&vec![p(0, 0), p(9, 9)]), 0);
    assert_eq!(polygon_area_x2(&vec![]), 0);
    // Extreme coordinates do not overflow.
    let big = vec![
        p(i32::MIN, i32::MIN),
        p(i32::MAX, i32::MIN),
        p(i32::MAX, i32::MAX),
        p(i32::MIN, i32::MAX),
    ];
    let side = (u32::MAX) as u128;
    assert_eq!(polygon_area_x2(&big), 2 * side * side);
}

#[test]
fn bounding_box_spans_the_extreme_points() {
    assert_eq!(bounding_box(&vec![]), None);
    assert_eq!(
        bounding_box(&vec![p(5, 9), p(2, 14), p(11, 3)]),
        Some(BoundingBox { x: 2, y: 3, width: 9, height: 11 })
    );
    assert_eq!(
        bounding_box(&vec![p(7, 7)]),
        Some(BoundingBox { x: 7, y: 7, width: 0, height: 0 })
    );
    // The widest possible span still fits the width.
    assert_eq!(
        bounding_box(&vec![p(i32::MIN, 0), p(i32::MAX, 1)]),
        Some(BoundingBox { x: 0x8000_0000, y: 0, width: u32::MAX, height: 1 })
    );
}

fn bbox(width: u32, height: u32) -> BoundingBox {
    BoundingBox { x: 0, y: 0, width, height }
}

#[test]
fn classification_follows_the_solidity_bands() {
    let rect = vec![p(0, 0), p(10, 0), p(10, 10), p(0, 10)];
    // Area 100 in a 10x10 box: solidity 1.
    assert_eq!(classify_contour(&rect, bbox(10, 10), 10_000), Classification::Shape(ShapeKind::Rectangle));
    // Same area in a larger box: 100/115 >= 0.85 rectangle; 100/120 circle.
    assert_eq!(classify_contour(&rect, bbox(115, 1), 10_000), Classification::Shape(ShapeKind::Rectangle));
    assert_eq!(classify_contour(&rect, bbox(120, 1), 10_000), Classification::Shape(ShapeKind::Circle));
    // 100/153 ~ 0.654 circle; 100/154 ~ 0.649 diamond.
    assert_eq!(classify_contour(&rect, bbox(153, 1), 10_000), Classification::Shape(ShapeKind::Circle));
    assert_eq!(classify_contour(&rect, bbox(154, 1), 10_000), Classification::Shape(ShapeKind::Diamond));
    // 100/285 ~ 0.351 diamond; 100/286 ~ 0.3497 noise.
    assert_eq!(classify_contour(&rect, bbox(285, 1), 10_000), Classification::Shape(ShapeKind::Diamond));
    assert_eq!(classify_contour(&rect, bbox(286, 1), 10_000), Classification::Noise);
    // An empty bounding box is noise.
    assert_eq!(classify_contour(&rect, bbox(0, 10), 10_000), Classification::Noise);
}

#[test]
fn classification_drops_tiny_and_frame_filling_contours() {
    // Area 20 is kept, area 19.5 is not.
    let kept = vec![p(0, 0), p(5, 0), p(5, 4), p(0, 4)];
    assert_eq!(classify_contour(&kept, bbox(5, 4), 10_000), Classification::Shape(ShapeKind::Rectangle));
    let tiny = vec![p(0, 0), p(13, 0), p(0, 3)];
    assert_eq!(classify_contour(&tiny, bbox(13, 3), 10_000), Classification::Noise);
    // Area 80 in a frame of 100 is kept (exactly 0.8); in a frame of 99 it is not.
    let big = vec![p(0, 0), p(10, 0), p(10, 8), p(0, 8)];
    assert_eq!(classify_contour(&big, bbox(10, 8), 100), Classification::Shape(ShapeKind::Rectangle));
    assert_eq!(classify_contour(&big, bbox(10, 8), 99), Classification::Noise);
    // A zero-area frame disables the upper limit.
    assert_eq!(classify_contour(&big, bbox(10, 8), 0), Classification::Shape(ShapeKind::Rectangle));
}

#[test]
fn classify_contours_keeps_shapes_in_order() {
    let contours = vec![
        vec![p(0, 0), p(10, 0), p(10, 10), p(0, 10)],
        vec![],
        vec![p(1, 1), p(2, 1), p(2, 2)],
        vec![p(20, 0), p(30, 10), p(20, 20), p(10, 10)],
    ];
    let shapes = classify_contours(&contours, 10_000);
    assert_eq!(
        shapes,
        vec![
            ShapeCandidate { bbox: bbox(10, 10), shape: ShapeKind::Rectangle },
            ShapeCandidate {
                bbox: BoundingBox { x: 10, y: 0, width: 20, height: 20 },
                shape: ShapeKind::Diamond
            },
        ]
    );
    let diagram = diagram_from_shapes(&shapes);
    assert_eq!(diagram.nodes.len(), 2);
    assert_eq!(diagram.nodes[1].id, 1);
    assert_eq!(diagram.nodes[1].shape, ShapeKind::Diamond);
    assert!(diagram.edges.is_empty());
}

#[test]
fn polygon_area_ignores_starting_vertex_and_orientation() {
    let poly = vec![p(0, 0), p(7, 1), p(9, 6), p(3, 11), p(-2, 5)];
    let area = polygon_area_x2(&poly);
    for k in 0..=poly.len() {
        let mut rotated: Vec<Point> = poly[k..].to_vec();
        rotated.extend_from_slice(&poly[..k]);
        assert_eq!(polygon_area_x2(&rotated), area);
        let reversed: Vec<Point> = rotated.iter().rev().copied().collect();
        assert_eq!(polygon_area_x2(&reversed), area);
    }
}

#[test]
fn detection_depends_only_on_which_pixels_are_ink() {
    let mut a = blank(100, 100);
    fill_rect(&mut a, 20, 20, 40, 30);
    fill_circle(&mut a, 75, 75, 15);
    // Same ink, other intensities on both sides of the level.
    let mut b = GrayImage::from_pixel(100, 100, Luma([100]));
    for y in 0..100 {
        for x in 0..100 {
            if a.get_pixel(x, y).0[0] > 128 {
                b.put_pixel(x, y, Luma([200]));
            }
        }
    }
    assert_eq!(detect_shapes(&frame(a)), detect_shapes(&frame(b)));
}

#[test]
fn built_diagram_renders_one_unlabeled_line_per_shape() {
    let mut img = blank(200, 200);
    fill_rect(&mut img, 10, 10, 40, 30);
    fill_diamond(&mut img, 60, 130, 25);
    let f = frame(img);
    let shapes = detect_shapes(&f);
    let text = delinea::generate(&build_diagram(&f));
    let expected: String = shapes
        .iter()
        .enumerate()
        .map(|(i, s)| {
            let kw = match s.shape {
                ShapeKind::Rectangle => "rectangle",
                ShapeKind::Circle => "circle",
                ShapeKind::Diamond => "diamond",
            };
            format!("node{i}: node{i} {{shape: {kw}}}\n")
        })
        .collect();
    assert_eq!(text, expected);
    assert_eq!(shapes.len(), 2);
}
