use swfmod::bounds::calculate_shape_bounds;
use swfmod::geometry::{compile_paths, opacity_to_alpha, PathInput, Segment};
use swfmod::model::{CapStyle, Edge, FillStyle, JoinStyle, Rgb, Rgba, Shape, ShapeRecord, ShapeStyles, StyleChange, Vector2D};

fn v(x: i32, y: i32) -> Vector2D {
    Vector2D { x, y }
}

fn filled(fill: Option<Rgb>, segments: Vec<Segment>) -> PathInput {
    PathInput { fill, fill_opacity: 1_000_000, stroke: None, stroke_opacity: 1_000_000, stroke_width: 20, segments }
}

fn edges(records: &[ShapeRecord]) -> Vec<Edge> {
    records
        .iter()
        .filter_map(|r| match r {
            ShapeRecord::Edge(e) => Some(*e),
            _ => None,
        })
        .collect()
}

#[test]
fn opacity_maps_to_alpha() {
    assert_eq!(opacity_to_alpha(0), 0);
    assert_eq!(opacity_to_alpha(1_000_000), 255);
    assert_eq!(opacity_to_alpha(1_500_000), 255);
    assert_eq!(opacity_to_alpha(-200_000), 0);
    assert_eq!(opacity_to_alpha(500_000), 128);
    assert_eq!(opacity_to_alpha(1_900), 0);
    assert_eq!(opacity_to_alpha(1_961), 1);
}

#[test]
fn red_rectangle_compiles_to_one_filled_shape() {
    let rect = filled(
        Some(Rgb { r: 255, g: 0, b: 0 }),
        vec![
            Segment::MoveTo(v(0, 0)),
            Segment::LineTo(v(200, 0)),
            Segment::LineTo(v(200, 200)),
            Segment::LineTo(v(0, 200)),
            Segment::Close,
        ],
    );
    let shapes = compile_paths(&vec![rect]);
    assert_eq!(shapes.len(), 1);
    let recs = &shapes[0].records;
    let style_records: Vec<&StyleChange> = recs
        .iter()
        .filter_map(|r| match r {
            ShapeRecord::StyleChange(sc) if sc.new_styles.is_some() => Some(sc),
            _ => None,
        })
        .collect();
    assert_eq!(style_records.len(), 1);
    let styles = style_records[0].new_styles.as_ref().unwrap();
    assert_eq!(styles.fill, vec![FillStyle::Solid(Rgba { r: 255, g: 0, b: 0, a: 255 })]);
    assert!(styles.line.is_empty());
    assert_eq!(style_records[0].left_fill, Some(1));
    let es = edges(recs);
    assert_eq!(es.len(), 4);
    assert!(es.iter().all(|e| e.control_delta.is_none()));
    let (sx, sy) = es.iter().fold((0, 0), |(x, y), e| (x + e.delta.x, y + e.delta.y));
    assert_eq!((sx, sy), (0, 0));
    assert_eq!(recs[0], ShapeRecord::StyleChange(style_records[0].clone()));
}

#[test]
fn straight_closed_path_returns_to_start() {
    let p = filled(
        None,
        vec![
            Segment::MoveTo(v(10, 10)),
            Segment::LineTo(v(110, 10)),
            Segment::LineTo(v(60, 90)),
            Segment::Close,
        ],
    );
    let shapes = compile_paths(&vec![p]);
    let es = edges(&shapes[0].records);
    assert!(es.iter().all(|e| e.control_delta.is_none()));
    let (sx, sy) = es.iter().fold((0, 0), |(x, y), e| (x + e.delta.x, y + e.delta.y));
    assert!(sx.abs() <= 1 && sy.abs() <= 1);
}

#[test]
fn close_within_one_unit_adds_no_edge() {
    let p = filled(None, vec![Segment::MoveTo(v(0, 0)), Segment::LineTo(v(100, 0)), Segment::LineTo(v(1, 1)), Segment::Close]);
    let shapes = compile_paths(&vec![p]);
    assert_eq!(edges(&shapes[0].records).len(), 2);
}

#[test]
fn cubic_becomes_two_curves() {
    let p = filled(
        None,
        vec![
            Segment::MoveTo(v(0, 0)),
            Segment::CubicTo { control1: v(0, 100), control2: v(100, 100), to: v(100, 0) },
        ],
    );
    let shapes = compile_paths(&vec![p]);
    let es = edges(&shapes[0].records);
    assert_eq!(es.len(), 2);
    assert_eq!(es[0], Edge { delta: v(50, 100), control_delta: Some(v(0, 100)) });
    assert_eq!(es[1], Edge { delta: v(50, -100), control_delta: Some(v(50, 0)) });
}

#[test]
fn quadratic_keeps_its_control_point() {
    let p = filled(None, vec![Segment::MoveTo(v(20, 20)), Segment::QuadTo { control: v(40, 60), to: v(80, 20) }]);
    let shapes = compile_paths(&vec![p]);
    assert_eq!(edges(&shapes[0].records), vec![Edge { delta: v(60, 0), control_delta: Some(v(20, 40)) }]);
}

#[test]
fn stroke_compiles_to_round_line_style() {
    let p = PathInput {
        fill: None,
        fill_opacity: 1_000_000,
        stroke: Some(Rgb { r: 0, g: 0, b: 255 }),
        stroke_opacity: 500_000,
        stroke_width: 40,
        segments: vec![Segment::MoveTo(v(0, 0)), Segment::LineTo(v(10, 0))],
    };
    let shapes = compile_paths(&vec![p]);
    match &shapes[0].records[0] {
        ShapeRecord::StyleChange(sc) => {
            assert_eq!(sc.left_fill, None);
            assert_eq!(sc.line_style, Some(1));
            let line = &sc.new_styles.as_ref().unwrap().line[0];
            assert_eq!(line.width, 40);
            assert_eq!(line.start_cap, CapStyle::Round);
            assert_eq!(line.end_cap, CapStyle::Round);
            assert_eq!(line.join, JoinStyle::Round);
            assert_eq!(line.fill, FillStyle::Solid(Rgba { r: 0, g: 0, b: 255, a: 128 }));
        },
        _ => panic!("expected a style change first"),
    }
}

#[test]
fn style_indices_count_across_paths() {
    let a = filled(Some(Rgb { r: 1, g: 2, b: 3 }), vec![Segment::MoveTo(v(0, 0))]);
    let b = filled(Some(Rgb { r: 4, g: 5, b: 6 }), vec![Segment::MoveTo(v(5, 5))]);
    let shapes = compile_paths(&vec![a, b]);
    let lefts: Vec<Option<usize>> = shapes[0]
        .records
        .iter()
        .filter_map(|r| match r {
            ShapeRecord::StyleChange(sc) if sc.new_styles.is_some() => Some(sc.left_fill),
            _ => None,
        })
        .collect();
    assert_eq!(lefts, vec![Some(1), Some(2)]);
}

#[test]
fn no_records_no_shape() {
    let shapes = compile_paths(&vec![filled(None, vec![])]);
    assert!(shapes.is_empty());
}

fn shape_of(records: Vec<ShapeRecord>) -> Shape {
    Shape { initial_styles: ShapeStyles { fill: vec![], line: vec![] }, records }
}

fn mv(x: i32, y: i32) -> ShapeRecord {
    ShapeRecord::StyleChange(StyleChange { move_to: Some(v(x, y)), left_fill: None, right_fill: None, line_style: None, new_styles: None })
}

#[test]
fn bounds_of_empty_shape_is_zero() {
    let r = calculate_shape_bounds(&shape_of(vec![])).unwrap();
    assert_eq!((r.x_min, r.x_max, r.y_min, r.y_max), (0, 0, 0, 0));
}

#[test]
fn bounds_of_single_move_is_padded_box() {
    let r = calculate_shape_bounds(&shape_of(vec![mv(100, -40)])).unwrap();
    assert_eq!((r.x_min, r.x_max, r.y_min, r.y_max), (-100, 300, -240, 160));
}

#[test]
fn bounds_include_control_points() {
    let recs = vec![
        mv(0, 0),
        ShapeRecord::Edge(Edge { delta: v(100, 0), control_delta: Some(v(50, -300)) }),
    ];
    let r = calculate_shape_bounds(&shape_of(recs)).unwrap();
    assert_eq!((r.x_min, r.x_max, r.y_min, r.y_max), (-200, 300, -500, 200));
}

#[test]
fn bounds_overflow_is_reported() {
    let r = calculate_shape_bounds(&shape_of(vec![mv(i32::MAX, 0)]));
    assert!(r.is_none());
}

#[test]
fn red_rectangle_from_svg_attributes() {
    let svg = r##"<svg><path d="M0 0 H10 V10 H0 Z" fill="#FF0000" fill-opacity="1.0"/></svg>"##;
    let sources = swfmod::svg::read_svg_paths(svg).unwrap();
    assert_eq!(sources.len(), 1);
    let segments = vec![
        Segment::MoveTo(v(0, 0)),
        Segment::LineTo(v(200, 0)),
        Segment::LineTo(v(200, 200)),
        Segment::LineTo(v(0, 200)),
        Segment::Close,
    ];
    let input = swfmod::svg::path_input(&sources[0], 1_000_000, 1_000_000, 20, segments);
    let shapes = compile_paths(&vec![input]);
    assert_eq!(shapes.len(), 1);
    let recs = &shapes[0].records;
    match &recs[0] {
        ShapeRecord::StyleChange(sc) => {
            let styles = sc.new_styles.as_ref().unwrap();
            assert_eq!(styles.fill, vec![FillStyle::Solid(Rgba { r: 255, g: 0, b: 0, a: 255 })]);
            assert_eq!(sc.left_fill, Some(1));
        },
        _ => panic!("style change expected first"),
    }
    let es = edges(recs);
    assert_eq!(es.len(), 4);
    assert_eq!(es.iter().fold((0, 0), |(x, y), e| (x + e.delta.x, y + e.delta.y)), (0, 0));
}

#[test]
fn bounds_reach_both_ends_of_the_range() {
    let low = calculate_shape_bounds(&shape_of(vec![mv(i32::MIN + 200, 0)])).unwrap();
    assert_eq!((low.x_min, low.x_max, low.y_min, low.y_max), (i32::MIN, i32::MIN + 400, -200, 200));
    let high = calculate_shape_bounds(&shape_of(vec![mv(0, i32::MAX - 200)])).unwrap();
    assert_eq!((high.y_min, high.y_max), (i32::MAX - 400, i32::MAX));
    assert!(calculate_shape_bounds(&shape_of(vec![mv(i32::MIN + 199, 0)])).is_none());
    assert!(calculate_shape_bounds(&shape_of(vec![mv(0, i32::MAX - 199)])).is_none());
}
