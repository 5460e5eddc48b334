use letterspacer::components::{decomposed_components, path_for_glyph, Component, Glyph, Outline, Transform};
use letterspacer::outline::{Contour, ContourDrawingError, ContourPoint, PathEl, Point, PointType};

const ONE: i64 = 16384;

fn translate(dx: i64, dy: i64) -> Transform {
    Transform { xx: ONE, xy: 0, yx: 0, yy: ONE, dx, dy }
}

fn line(x: i32, y: i32) -> ContourPoint {
    ContourPoint { x, y, typ: PointType::Line, smooth: false }
}

fn simple(points: Vec<ContourPoint>) -> Glyph {
    Glyph { outline: Some(Outline { contours: vec![Contour { points }], components: vec![] }) }
}

fn composite(components: Vec<Component>) -> Glyph {
    Glyph { outline: Some(Outline { contours: vec![], components }) }
}

#[test]
fn translated_component() {
    let layer = vec![simple(vec![line(0, 0), line(10, 0)])];
    let g = composite(vec![Component { base: 0, transform: translate(5, 7) }]);
    let out = decomposed_components(&g, &layer);
    assert_eq!(out.len(), 1);
    assert_eq!(out[0].points, vec![line(5, 7), line(15, 7)]);
}

#[test]
fn nested_transforms_compose_outer_after_inner() {
    // Glyph 1 places glyph 0 scaled by 2; the composite places glyph 1 moved by (100, 0).
    let scale2 = Transform { xx: 2 * ONE, xy: 0, yx: 0, yy: 2 * ONE, dx: 0, dy: 0 };
    let layer = vec![
        simple(vec![line(1, 1), line(3, 1)]),
        composite(vec![Component { base: 0, transform: scale2 }]),
    ];
    let g = composite(vec![Component { base: 1, transform: translate(100, 0) }]);
    let out = decomposed_components(&g, &layer);
    assert_eq!(out.len(), 1);
    assert_eq!(out[0].points, vec![line(102, 2), line(106, 2)]);
}

#[test]
fn flipped_component() {
    let flip = Transform { xx: -ONE, xy: 0, yx: 0, yy: ONE, dx: 500, dy: 0 };
    let layer = vec![simple(vec![line(100, 0), line(200, 50)])];
    let g = composite(vec![Component { base: 0, transform: flip }]);
    let out = decomposed_components(&g, &layer);
    assert_eq!(out[0].points, vec![line(400, 0), line(300, 50)]);
}

#[test]
fn dangling_and_outline_less_references_are_skipped() {
    let layer = vec![Glyph { outline: None }, simple(vec![line(1, 2)])];
    let g = composite(vec![
        Component { base: 7, transform: translate(0, 0) },
        Component { base: 0, transform: translate(0, 0) },
        Component { base: 1, transform: translate(0, 0) },
    ]);
    let out = decomposed_components(&g, &layer);
    assert_eq!(out.len(), 1);
    assert_eq!(out[0].points, vec![line(1, 2)]);
}

#[test]
fn reference_cycle_terminates() {
    let layer = vec![Glyph {
        outline: Some(Outline {
            contours: vec![Contour { points: vec![line(0, 0)] }],
            components: vec![Component { base: 0, transform: translate(1, 0) }],
        }),
    }];
    let g = composite(vec![Component { base: 0, transform: translate(0, 0) }]);
    let out = decomposed_components(&g, &layer);
    assert_eq!(out.len(), 65);
    assert_eq!(out[64].points, vec![line(64, 0)]);
}

#[test]
fn components_come_in_reference_order() {
    let layer = vec![simple(vec![line(1, 1)]), simple(vec![line(2, 2)])];
    let g = composite(vec![
        Component { base: 0, transform: translate(0, 0) },
        Component { base: 1, transform: translate(0, 0) },
    ]);
    let out = decomposed_components(&g, &layer);
    assert_eq!(out[0].points, vec![line(1, 1)]);
    assert_eq!(out[1].points, vec![line(2, 2)]);
}

#[test]
fn glyph_without_outline_has_no_path() {
    let layer: Vec<Glyph> = vec![];
    assert!(matches!(path_for_glyph(&Glyph { outline: None }, &layer), Ok(None)));
}

#[test]
fn glyph_path_joins_own_and_component_contours() {
    let layer = vec![simple(vec![line(0, 0), line(10, 0)])];
    let g = Glyph {
        outline: Some(Outline {
            contours: vec![Contour { points: vec![line(50, 50), line(60, 50)] }],
            components: vec![Component { base: 0, transform: translate(0, 100) }],
        }),
    };
    let path = path_for_glyph(&g, &layer).unwrap().unwrap();
    let p = |x, y| Point { x, y };
    assert_eq!(
        path,
        vec![
            PathEl::MoveTo(p(50, 50)),
            PathEl::LineTo(p(60, 50)),
            PathEl::LineTo(p(50, 50)),
            PathEl::ClosePath,
            PathEl::MoveTo(p(0, 100)),
            PathEl::LineTo(p(10, 100)),
            PathEl::LineTo(p(0, 100)),
            PathEl::ClosePath,
        ]
    );
}

#[test]
fn malformed_contour_fails_the_glyph() {
    let bad = vec![
        ContourPoint { x: 0, y: 0, typ: PointType::Move, smooth: false },
        ContourPoint { x: 1, y: 1, typ: PointType::OffCurve, smooth: false },
        line(2, 0),
    ];
    let layer = vec![simple(bad)];
    let g = composite(vec![Component { base: 0, transform: translate(0, 0) }]);
    assert!(matches!(
        path_for_glyph(&g, &layer),
        Err(ContourDrawingError::IllegalPointCount(PointType::Line, 1))
    ));
}
