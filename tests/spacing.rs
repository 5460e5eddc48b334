use kurbo::ParamCurve;
use letterspacer::outline::{contour_segments, Contour, ContourPoint, PathEl, PointType};
use letterspacer::sidebearing::{sidebearing_value, twice_area, PolyPoint};
use letterspacer::smoothing::{smooth_left, smooth_right};
use letterspacer::spacing::{
    calculate_spacing, scanlines, spacing_polygons, AreaParams, SpacingParams, SpacingPolygons,
};

fn pp(x: i64, y: i64) -> PolyPoint {
    PolyPoint { x, y }
}

fn upright(lower: i64, upper: i64, xheight: i64) -> SpacingParams {
    SpacingParams {
        lower,
        upper,
        xheight,
        slant_num: 0,
        slant_den: 1,
        scan_step: 5,
        depth_cut: 15,
    }
}

/// Hits of a horizontal line at `y` with a path, rounded to whole units.
fn hits_for(path: &[PathEl], y: i64, x0: f64, x1: f64) -> Vec<i64> {
    let mut bez = kurbo::BezPath::new();
    let k = |p: &letterspacer::outline::Point| kurbo::Point::new(p.x as f64, p.y as f64);
    for el in path {
        match el {
            PathEl::MoveTo(p) => bez.move_to(k(p)),
            PathEl::LineTo(p) => bez.line_to(k(p)),
            PathEl::QuadTo(c, p) => bez.quad_to(k(c), k(p)),
            PathEl::CurveTo(c1, c2, p) => bez.curve_to(k(c1), k(c2), k(p)),
            PathEl::ClosePath => bez.close_path(),
        }
    }
    let line = kurbo::Line::new((x0, y as f64), (x1, y as f64));
    bez.segments()
        .flat_map(|s| {
            s.intersect_line(line).into_iter().map(move |h| s.eval(h.segment_t).x.round() as i64)
        })
        .collect()
}

fn rect(x0: i32, y0: i32, x1: i32, y1: i32) -> Vec<ContourPoint> {
    let l = |x, y| ContourPoint { x, y, typ: PointType::Line, smooth: false };
    vec![l(x0, y0), l(x1, y0), l(x1, y1), l(x0, y1)]
}

#[test]
fn square_area_either_winding() {
    let ccw = vec![pp(0, 0), pp(10, 0), pp(10, 10), pp(0, 10)];
    let cw: Vec<PolyPoint> = ccw.iter().rev().cloned().collect();
    assert_eq!(twice_area(&ccw), 200);
    assert_eq!(twice_area(&cw), 200);
}

#[test]
fn degenerate_polygon_has_zero_area() {
    assert_eq!(twice_area(&vec![]), 0);
    assert_eq!(twice_area(&vec![pp(3, 4), pp(3, 9)]), 0);
}

#[test]
fn sidebearing_value_exact() {
    // white = 400 * 1.0 * 1 * 100 = 40000; 40000/500 - 10000/500 = 60.
    assert_eq!(sidebearing_value(100, 0, 500, 400, 20000, 1000, 500), 60);
    // A fractional value is rounded up: 80 - 1/500.
    assert_eq!(sidebearing_value(100, 0, 500, 400, 2, 1000, 500), 80);
    // Units per em scale the white area quadratically: 2000 upm gives 320.
    assert_eq!(sidebearing_value(100, 0, 500, 400, 0, 2000, 500), 320);
    // Negative values round towards positive infinity.
    assert_eq!(sidebearing_value(0, 0, 100, 400, 301, 1000, 500), -1);
}

#[test]
fn smoothing_limits_steps() {
    assert_eq!(smooth_left(&vec![0, 20, 0], 5), vec![0, 5, 0]);
    assert_eq!(smooth_left(&vec![30, 0], 5), vec![5, 0]);
    assert_eq!(smooth_left(&vec![0, 100, 100, 0], 5), vec![0, 5, 5, 0]);
    assert_eq!(smooth_right(&vec![0, -20, 0], 5), vec![0, -5, 0]);
    assert_eq!(smooth_right(&vec![], 5), Vec::<i64>::new());
    let out = smooth_left(&vec![0, 50, 80, 10, 60, 60], 5);
    for w in out.windows(2) {
        assert!((w[1] - w[0]).abs() <= 5);
    }
}

#[test]
fn scanlines_cover_glyph_and_zone() {
    assert_eq!(scanlines(0, 12, 0, 10, 5), vec![0, 5, 10]);
    assert_eq!(scanlines(-7, 3, 0, 10, 5), vec![-7, -2, 3, 8]);
    assert_eq!(scanlines(0, 0, 0, 0, 5), vec![0]);
}

#[test]
fn rectangle_polygons() {
    let ys = scanlines(0, 500, 0, 500, 5);
    let hits: Vec<Vec<i64>> = ys.iter().map(|_| vec![300, 100]).collect();
    let sp = spacing_polygons(&ys, &hits, &upright(0, 500, 500)).unwrap();
    assert_eq!(sp.extreme_left, 100);
    assert_eq!(sp.extreme_right, 300);
    assert_eq!(sp.left.len(), ys.len() + 2);
    assert!(sp.left.iter().all(|p| p.x == 100));
    assert!(sp.right.iter().all(|p| p.x == 300));
    assert_eq!(sp.left[0], pp(100, 0));
    assert_eq!(*sp.left.last().unwrap(), pp(100, 500));
}

#[test]
fn depth_cut_and_smoothing_on_counter() {
    // A "C"-like shape: the left side is deep in between y = 100 and 400.
    let ys: Vec<i64> = (0..=100).map(|k| k * 5).collect();
    let hits: Vec<Vec<i64>> =
        ys.iter().map(|&y| if (100..=400).contains(&y) { vec![400, 300] } else { vec![100, 400] }).collect();
    let p = upright(0, 500, 500);
    let sp = spacing_polygons(&ys, &hits, &p).unwrap();
    let depth = 500 * 15 / 100;
    for v in &sp.left {
        assert!(v.x <= sp.extreme_left + depth);
    }
    for v in &sp.right {
        assert!(v.x >= sp.extreme_right - depth);
    }
    let inner: Vec<i64> = sp.left[1..sp.left.len() - 1].iter().map(|p| p.x).collect();
    for w in inner.windows(2) {
        assert!((w[1] - w[0]).abs() <= 5);
    }
    // The mouth is closed at 45 degrees from both ends, capped at 175.
    assert_eq!(inner[19], 100);
    assert_eq!(inner[20], 105);
    assert_eq!(inner[21], 110);
    assert_eq!(inner[50], 175);
    assert_eq!(inner[80], 105);
}

#[test]
fn open_strip_in_zone_is_treated_as_far_in() {
    let ys = vec![0, 5, 10];
    let hits = vec![vec![100, 200], vec![], vec![100, 200]];
    let sp = spacing_polygons(&ys, &hits, &upright(0, 10, 500)).unwrap();
    assert_eq!(sp.left[2].x, 105);
    assert_eq!(sp.right[2].x, 195);
}

#[test]
fn deskew_uses_half_xheight_pivot() {
    let mut p = upright(0, 500, 500);
    p.slant_num = 1;
    p.slant_den = 5;
    let ys = vec![250, 500];
    let hits = vec![vec![100, 200], vec![150, 250]];
    let sp = spacing_polygons(&ys, &hits, &p).unwrap();
    // At y = 500 the shear is (500 - 250) / 5 = 50.
    assert_eq!(sp.left[1].x, 100);
    assert_eq!(sp.left[2].x, 100);
    assert_eq!(sp.right[2].x, 200);
}

#[test]
fn no_ink_in_zone_gives_nothing() {
    let ys = vec![0, 5, 10, 600];
    let hits = vec![vec![], vec![], vec![], vec![10, 20]];
    assert!(spacing_polygons(&ys, &hits, &upright(0, 500, 500)).is_none());
}

#[test]
fn empty_outline_yields_none() {
    let ys = scanlines(0, 0, 0, 500, 5);
    let hits: Vec<Vec<i64>> = ys.iter().map(|_| vec![]).collect();
    let area = AreaParams { factor_pct: 100, param_area: 400, units_per_em: 1000 };
    let mut debug: Vec<SpacingPolygons> = Vec::new();
    let r = calculate_spacing(&ys, &hits, &upright(0, 500, 500), &area, &mut debug);
    assert_eq!(r, (None, None));
    assert!(debug.is_empty());
}

#[test]
fn rectangle_spacing_values() {
    let ys = scanlines(0, 500, 0, 500, 5);
    let hits: Vec<Vec<i64>> = ys.iter().map(|_| vec![100, 300]).collect();
    let area = AreaParams { factor_pct: 100, param_area: 400, units_per_em: 1000 };
    let mut debug = Vec::new();
    let r = calculate_spacing(&ys, &hits, &upright(0, 500, 500), &area, &mut debug);
    assert_eq!(r, (Some(80), Some(80)));
    assert_eq!(debug.len(), 1);
}

#[test]
fn overshoot_outside_zone_reduces_sidebearing() {
    let ys = vec![-10, 0, 5, 10];
    let hits = vec![vec![90, 310], vec![100, 300], vec![100, 300], vec![100, 300]];
    let area = AreaParams { factor_pct: 100, param_area: 400, units_per_em: 1000 };
    let mut debug = Vec::new();
    let (l, r) = calculate_spacing(&ys, &hits, &upright(0, 10, 500), &area, &mut debug);
    let sp = &debug[0];
    assert_eq!(sp.extreme_left_full, 90);
    assert_eq!(sp.extreme_left, 100);
    assert_eq!(l, Some(80 - 10));
    assert_eq!(r, Some(80 - 10));
}

#[test]
fn symmetric_h_has_equal_sidebearings() {
    // Stems 100..180 and 420..500, crossbar 330..400, height 0..700.
    let mut contours = vec![Contour { points: rect(100, 0, 180, 700) }];
    contours.push(Contour { points: rect(420, 0, 500, 700) });
    contours.push(Contour { points: rect(180, 330, 420, 400) });
    let mut path = Vec::new();
    for c in &contours {
        path.extend(contour_segments(c).unwrap());
    }
    let p = upright(0, 700, 500);
    let ys = scanlines(0, 700, p.lower, p.upper, p.scan_step);
    let hits: Vec<Vec<i64>> = ys.iter().map(|&y| hits_for(&path, y, 0.0, 600.0)).collect();
    let area = AreaParams { factor_pct: 125, param_area: 400, units_per_em: 1000 };
    let mut debug = Vec::new();
    let (l, r) = calculate_spacing(&ys, &hits, &p, &area, &mut debug);
    let (l, r) = (l.unwrap(), r.unwrap());
    assert!((l - r).abs() <= 1);
    // 400 * 1.25 * 100 / 500 = 100 less a non-negative area term.
    assert!(l <= 100);
}
