use swfmod::model::{DefineShape, Edge, FillStyle, Header, Movie, Rect, Rgb, Rgba, Shape, ShapeRecord, ShapeStyles, StyleChange, Tag, Vector2D};
use swfmod::patch::{
    apply_tag_modification, apply_tag_modifications, replace_shape_in_movie, Field, FieldName, PatchError, ReplaceError, ShapeUpdate,
    TagKind, TagModification, TagUpdate,
};

fn header() -> Header {
    Header { swf_version: 10, frame_size: Rect { x_min: 0, x_max: 100, y_min: 0, y_max: 100 }, frame_rate: 256, frame_count: 1 }
}

fn shape(fill: Vec<FillStyle>) -> Shape {
    Shape {
        initial_styles: ShapeStyles { fill, line: vec![] },
        records: vec![
            ShapeRecord::StyleChange(StyleChange { move_to: Some(Vector2D { x: 0, y: 0 }), left_fill: Some(2), right_fill: Some(3), line_style: None, new_styles: None }),
            ShapeRecord::Edge(Edge { delta: Vector2D { x: 100, y: 100 }, control_delta: None }),
        ],
    }
}

fn def(id: u16, s: Shape) -> Tag {
    Tag::DefineShape(DefineShape {
        id,
        bounds: Rect { x_min: 1, x_max: 2, y_min: 3, y_max: 4 },
        edge_bounds: None,
        has_fill_winding: false,
        has_non_scaling_strokes: false,
        has_scaling_strokes: false,
        shape: s,
    })
}

fn red() -> FillStyle {
    FillStyle::Solid(Rgba { r: 255, g: 0, b: 0, a: 255 })
}

fn shape_update() -> ShapeUpdate {
    ShapeUpdate {
        shape: Field::Absent,
        bounds: Field::Absent,
        records: Field::Absent,
        styles: Field::Absent,
        fill_styles: Field::Absent,
        line_styles: Field::Absent,
    }
}

#[test]
fn bounds_only_patch_changes_only_bounds() {
    let mut movie = Movie { header: header(), tags: vec![def(2, shape(vec![red()])), def(3, shape(vec![red()]))] };
    let new_bounds = Rect { x_min: -10, x_max: 10, y_min: -20, y_max: 20 };
    let m = TagModification { id: 3, update: TagUpdate::Shape(ShapeUpdate { bounds: Field::Given(new_bounds), ..shape_update() }) };
    assert!(apply_tag_modification(&mut movie, m).is_ok());
    assert_eq!(movie.tags[0], def(2, shape(vec![red()])));
    match &movie.tags[1] {
        Tag::DefineShape(d) => {
            assert_eq!(d.bounds, new_bounds);
            assert_eq!(d.shape, shape(vec![red()]));
            assert_eq!(d.id, 3);
        },
        _ => panic!(),
    }
}

#[test]
fn whole_shape_override_wins() {
    let mut movie = Movie { header: header(), tags: vec![def(3, shape(vec![]))] };
    let update = ShapeUpdate {
        shape: Field::Given(shape(vec![red()])),
        bounds: Field::Malformed("ignored".to_string()),
        ..shape_update()
    };
    assert!(apply_tag_modification(&mut movie, TagModification { id: 3, update: TagUpdate::Shape(update) }).is_ok());
    assert_eq!(movie.tags[0], def(3, shape(vec![red()])));
}

#[test]
fn style_table_override_wins_over_fill_list() {
    let mut movie = Movie { header: header(), tags: vec![def(3, shape(vec![]))] };
    let update = ShapeUpdate {
        styles: Field::Given(ShapeStyles { fill: vec![red(), red()], line: vec![] }),
        fill_styles: Field::Given(vec![]),
        ..shape_update()
    };
    apply_tag_modification(&mut movie, TagModification { id: 3, update: TagUpdate::Shape(update) }).unwrap();
    match &movie.tags[0] {
        Tag::DefineShape(d) => assert_eq!(d.shape.initial_styles.fill.len(), 2),
        _ => panic!(),
    }
}

#[test]
fn unmatched_id_is_skipped() {
    let mut movie = Movie { header: header(), tags: vec![def(3, shape(vec![]))] };
    let m = TagModification { id: 9, update: TagUpdate::Shape(ShapeUpdate { bounds: Field::Malformed("bad".to_string()), ..shape_update() }) };
    assert!(apply_tag_modification(&mut movie, m).is_ok());
    assert_eq!(movie.tags[0], def(3, shape(vec![])));
}

#[test]
fn malformed_field_of_target_is_reported() {
    let mut movie = Movie { header: header(), tags: vec![def(3, shape(vec![]))] };
    let m = TagModification { id: 3, update: TagUpdate::Shape(ShapeUpdate { records: Field::Malformed("expected a list".to_string()), ..shape_update() }) };
    let r = apply_tag_modification(&mut movie, m);
    assert_eq!(r, Err(PatchError { kind: TagKind::DefineShape, field: FieldName::Records, message: "expected a list".to_string() }));
    assert_eq!(movie.tags[0], def(3, shape(vec![])));
}

#[test]
fn control_tags_patch_first_of_kind() {
    let mut movie = Movie {
        header: header(),
        tags: vec![Tag::SetBackgroundColor { color: Rgb { r: 0, g: 0, b: 0 } }, Tag::SetBackgroundColor { color: Rgb { r: 1, g: 1, b: 1 } }],
    };
    let m = TagModification { id: 0, update: TagUpdate::BackgroundColor { color: Field::Given(Rgba { r: 9, g: 8, b: 7, a: 6 }) } };
    apply_tag_modification(&mut movie, m).unwrap();
    assert_eq!(movie.tags[0], Tag::SetBackgroundColor { color: Rgb { r: 9, g: 8, b: 7 } });
    assert_eq!(movie.tags[1], Tag::SetBackgroundColor { color: Rgb { r: 1, g: 1, b: 1 } });
}

#[test]
fn modifications_apply_in_order_and_stop_at_fault() {
    let mut movie = Movie { header: header(), tags: vec![Tag::DefineBinaryData { id: 4, data: vec![1] }, Tag::DoAction { actions: vec![] }] };
    let mods = vec![
        TagModification { id: 4, update: TagUpdate::BinaryData { data: Field::Given(vec![2, 3]) } },
        TagModification { id: 0, update: TagUpdate::Action { actions: Field::Malformed("no".to_string()) } },
        TagModification { id: 4, update: TagUpdate::BinaryData { data: Field::Given(vec![9]) } },
    ];
    let r = apply_tag_modifications(&mut movie, mods);
    assert_eq!(r, Err(PatchError { kind: TagKind::DoAction, field: FieldName::Actions, message: "no".to_string() }));
    assert_eq!(movie.tags[0], Tag::DefineBinaryData { id: 4, data: vec![2, 3] });
}

#[test]
fn replacement_keeps_old_fills_when_new_has_none() {
    let mut movie = Movie { header: header(), tags: vec![def(5, shape(vec![red()]))] };
    replace_shape_in_movie(&mut movie, 5, vec![shape(vec![])]).unwrap();
    match &movie.tags[0] {
        Tag::DefineShape(d) => {
            assert_eq!(d.shape.initial_styles.fill, vec![red()]);
            match &d.shape.records[0] {
                ShapeRecord::StyleChange(sc) => {
                    assert_eq!(sc.left_fill, Some(1));
                    assert_eq!(sc.right_fill, None);
                },
                _ => panic!(),
            }
            assert_eq!(d.bounds, Rect { x_min: -200, x_max: 300, y_min: -200, y_max: 300 });
        },
        _ => panic!(),
    }
}

#[test]
fn replacement_uses_new_fills() {
    let blue = FillStyle::Solid(Rgba { r: 0, g: 0, b: 255, a: 255 });
    let mut movie = Movie { header: header(), tags: vec![def(5, shape(vec![red()]))] };
    replace_shape_in_movie(&mut movie, 5, vec![shape(vec![blue.clone()])]).unwrap();
    match &movie.tags[0] {
        Tag::DefineShape(d) => {
            assert_eq!(d.shape, shape(vec![blue]));
        },
        _ => panic!(),
    }
}

#[test]
fn replacement_of_missing_shape_fails() {
    let mut movie = Movie { header: header(), tags: vec![def(5, shape(vec![]))] };
    assert_eq!(replace_shape_in_movie(&mut movie, 6, vec![shape(vec![])]), Err(ReplaceError::NotFound));
    assert_eq!(replace_shape_in_movie(&mut movie, 5, vec![]), Err(ReplaceError::NotFound));
}

#[test]
fn replacement_too_far_out_fails_and_keeps_movie() {
    let mut movie = Movie { header: header(), tags: vec![def(5, shape(vec![red()]))] };
    let mut far = shape(vec![red()]);
    far.records[0] = ShapeRecord::StyleChange(StyleChange { move_to: Some(Vector2D { x: i32::MIN, y: 0 }), left_fill: None, right_fill: None, line_style: None, new_styles: None });
    assert_eq!(replace_shape_in_movie(&mut movie, 5, vec![far]), Err(ReplaceError::BoundsOverflow));
    assert_eq!(movie.tags[0], def(5, shape(vec![red()])));
}
