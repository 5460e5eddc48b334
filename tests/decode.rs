use kurbo::Shape;
use letterspacer::outline::{contour_segments, Contour, ContourDrawingError, ContourPoint, PathEl, Point, PointType};

fn cp(x: i32, y: i32, typ: PointType) -> ContourPoint {
    ContourPoint { x, y, typ, smooth: false }
}

fn pt(x: i32, y: i32) -> Point {
    Point { x, y }
}

fn contour(points: Vec<ContourPoint>) -> Contour {
    Contour { points }
}

fn bbox(path: &[PathEl]) -> (f64, f64, f64, f64) {
    let mut bez = kurbo::BezPath::new();
    let k = |p: &Point| kurbo::Point::new(p.x as f64, p.y as f64);
    for el in path {
        match el {
            PathEl::MoveTo(p) => bez.move_to(k(p)),
            PathEl::LineTo(p) => bez.line_to(k(p)),
            PathEl::QuadTo(c, p) => bez.quad_to(k(c), k(p)),
            PathEl::CurveTo(c1, c2, p) => bez.curve_to(k(c1), k(c2), k(p)),
            PathEl::ClosePath => bez.close_path(),
        }
    }
    let r = bez.bounding_box();
    (r.x0, r.y0, r.x1, r.y1)
}

#[test]
fn empty_contour_has_no_segments() {
    assert_eq!(contour_segments(&contour(vec![])), Ok(vec![]));
}

#[test]
fn single_point_is_a_move() {
    let c = contour(vec![cp(5, 7, PointType::Line)]);
    assert_eq!(contour_segments(&c), Ok(vec![PathEl::MoveTo(pt(5, 7))]));
}

#[test]
fn open_contour_keeps_its_start() {
    let c = contour(vec![
        cp(0, 0, PointType::Move),
        cp(10, 0, PointType::Line),
        cp(10, 10, PointType::Line),
    ]);
    assert_eq!(
        contour_segments(&c),
        Ok(vec![PathEl::MoveTo(pt(0, 0)), PathEl::LineTo(pt(10, 0)), PathEl::LineTo(pt(10, 10))])
    );
}

#[test]
fn closed_contour_starts_at_first_on_curve() {
    // The first point is a curve whose controls sit at the end of the list.
    let c = contour(vec![
        cp(0, 0, PointType::Curve),
        cp(100, 0, PointType::Line),
        cp(100, 50, PointType::OffCurve),
        cp(50, 100, PointType::OffCurve),
    ]);
    assert_eq!(
        contour_segments(&c),
        Ok(vec![
            PathEl::MoveTo(pt(0, 0)),
            PathEl::LineTo(pt(100, 0)),
            PathEl::CurveTo(pt(100, 50), pt(50, 100), pt(0, 0)),
            PathEl::ClosePath,
        ])
    );
}

#[test]
fn round_o_contour() {
    let c = contour(vec![
        cp(250, 0, PointType::QCurve),
        cp(500, 0, PointType::OffCurve),
        cp(500, 250, PointType::QCurve),
        cp(500, 500, PointType::OffCurve),
        cp(250, 500, PointType::QCurve),
        cp(0, 500, PointType::OffCurve),
        cp(0, 250, PointType::QCurve),
        cp(0, 0, PointType::OffCurve),
    ]);
    let segs = contour_segments(&c).unwrap();
    assert_eq!(
        segs,
        vec![
            PathEl::MoveTo(pt(250, 0)),
            PathEl::QuadTo(pt(500, 0), pt(500, 250)),
            PathEl::QuadTo(pt(500, 500), pt(250, 500)),
            PathEl::QuadTo(pt(0, 500), pt(0, 250)),
            PathEl::QuadTo(pt(0, 0), pt(250, 0)),
            PathEl::ClosePath,
        ]
    );
    let (x0, y0, x1, y1) = bbox(&segs);
    assert!((x0 - 0.0).abs() < 1e-9 && (y0 - 0.0).abs() < 1e-9);
    assert!((x1 - 500.0).abs() < 1e-9 && (y1 - 500.0).abs() < 1e-9);
}

#[test]
fn round_o_contour_with_cubics() {
    let c = contour(vec![
        cp(250, 0, PointType::Curve),
        cp(400, 0, PointType::OffCurve),
        cp(500, 100, PointType::OffCurve),
        cp(500, 250, PointType::Curve),
        cp(500, 400, PointType::OffCurve),
        cp(400, 500, PointType::OffCurve),
        cp(250, 500, PointType::Curve),
        cp(100, 500, PointType::OffCurve),
        cp(0, 400, PointType::OffCurve),
        cp(0, 250, PointType::Curve),
        cp(0, 100, PointType::OffCurve),
        cp(100, 0, PointType::OffCurve),
    ]);
    let segs = contour_segments(&c).unwrap();
    assert_eq!(segs.len(), 6);
    assert_eq!(segs[0], PathEl::MoveTo(pt(250, 0)));
    assert!(segs[1..5].iter().all(|s| matches!(s, PathEl::CurveTo(..))));
    assert_eq!(segs[5], PathEl::ClosePath);
    let (x0, y0, x1, y1) = bbox(&segs);
    assert!((x0 - 0.0).abs() < 1e-9 && (y0 - 0.0).abs() < 1e-9);
    assert!((x1 - 500.0).abs() < 1e-9 && (y1 - 500.0).abs() < 1e-9);
}

#[test]
fn all_off_curve_contour_gets_implied_point() {
    let c = contour(vec![
        cp(0, 0, PointType::OffCurve),
        cp(100, 0, PointType::OffCurve),
        cp(100, 100, PointType::OffCurve),
    ]);
    // Implied on-curve between the last and the first control: (50, 50).
    assert_eq!(
        contour_segments(&c),
        Ok(vec![
            PathEl::MoveTo(pt(50, 50)),
            PathEl::QuadTo(pt(0, 0), pt(50, 0)),
            PathEl::QuadTo(pt(100, 0), pt(100, 50)),
            PathEl::QuadTo(pt(100, 100), pt(50, 50)),
            PathEl::ClosePath,
        ])
    );
}

#[test]
fn implied_midpoint_rounds_down() {
    let c = contour(vec![cp(-3, 1, PointType::OffCurve), cp(0, 0, PointType::OffCurve)]);
    let segs = contour_segments(&c).unwrap();
    assert_eq!(segs[0], PathEl::MoveTo(pt(-2, 0)));
}

#[test]
fn quadratic_chain_uses_midpoints() {
    let c = contour(vec![
        cp(0, 0, PointType::Move),
        cp(10, 10, PointType::OffCurve),
        cp(30, 10, PointType::OffCurve),
        cp(50, 10, PointType::OffCurve),
        cp(60, 0, PointType::QCurve),
    ]);
    assert_eq!(
        contour_segments(&c),
        Ok(vec![
            PathEl::MoveTo(pt(0, 0)),
            PathEl::QuadTo(pt(10, 10), pt(20, 10)),
            PathEl::QuadTo(pt(30, 10), pt(40, 10)),
            PathEl::QuadTo(pt(50, 10), pt(60, 0)),
        ])
    );
}

#[test]
fn degenerate_curves_become_lines_and_quads() {
    let c = contour(vec![
        cp(0, 0, PointType::Move),
        cp(10, 0, PointType::Curve),
        cp(20, 0, PointType::QCurve),
        cp(25, 5, PointType::OffCurve),
        cp(30, 0, PointType::Curve),
    ]);
    assert_eq!(
        contour_segments(&c),
        Ok(vec![
            PathEl::MoveTo(pt(0, 0)),
            PathEl::LineTo(pt(10, 0)),
            PathEl::LineTo(pt(20, 0)),
            PathEl::QuadTo(pt(25, 5), pt(30, 0)),
        ])
    );
}

#[test]
fn line_after_off_curve_is_illegal() {
    let c = contour(vec![
        cp(0, 0, PointType::Move),
        cp(5, 5, PointType::OffCurve),
        cp(10, 0, PointType::Line),
    ]);
    assert_eq!(contour_segments(&c), Err(ContourDrawingError::IllegalPointCount(PointType::Line, 1)));
}

#[test]
fn move_inside_contour_is_illegal() {
    let c = contour(vec![
        cp(0, 0, PointType::Line),
        cp(10, 0, PointType::Move),
        cp(10, 10, PointType::Line),
    ]);
    assert_eq!(contour_segments(&c), Err(ContourDrawingError::IllegalMove));
}

#[test]
fn trailing_off_curves_are_rejected() {
    let c = contour(vec![
        cp(0, 0, PointType::Move),
        cp(10, 0, PointType::Line),
        cp(15, 5, PointType::OffCurve),
    ]);
    assert_eq!(contour_segments(&c), Err(ContourDrawingError::TrailingOffCurves));
}

#[test]
fn super_bezier_is_rejected() {
    let c = contour(vec![
        cp(0, 0, PointType::Move),
        cp(1, 1, PointType::OffCurve),
        cp(2, 1, PointType::OffCurve),
        cp(3, 1, PointType::OffCurve),
        cp(4, 0, PointType::Curve),
    ]);
    assert_eq!(contour_segments(&c), Err(ContourDrawingError::UnsupportedSegmentDegree(3)));
}

#[test]
fn decoding_twice_gives_the_same_segments() {
    let c = contour(vec![
        cp(0, 0, PointType::Line),
        cp(50, 80, PointType::OffCurve),
        cp(100, 0, PointType::QCurve),
    ]);
    assert_eq!(contour_segments(&c), contour_segments(&c));
}

#[test]
fn rotated_storage_rotates_segments() {
    let pts = vec![
        cp(0, 0, PointType::Line),
        cp(100, 0, PointType::Line),
        cp(150, 50, PointType::OffCurve),
        cp(100, 100, PointType::QCurve),
        cp(0, 100, PointType::Line),
    ];
    let a = contour_segments(&contour(pts.clone())).unwrap();
    let mut rotated = pts.clone();
    rotated.rotate_left(1);
    let b = contour_segments(&contour(rotated)).unwrap();
    let body_a = &a[1..a.len() - 1];
    let body_b = &b[1..b.len() - 1];
    assert_eq!(body_a.len(), body_b.len());
    let n = body_a.len();
    let found = (0..n).any(|k| (0..n).all(|i| body_b[i] == body_a[(i + k) % n]));
    assert!(found);
}
