use swfmod::config::{BoundRange, Bounds, CompiledShape, NewBitmap, NewButton, NewElements, NewScene, NewSprite, SwfModification};
use swfmod::lifecycle::{add_new_bitmap, add_new_scenes, add_new_shape, add_new_sprite, find_next_available_id, remove_swf_elements, AddError, RemoveElements};
use swfmod::model::{
    DefineButton, DefineShape, DefineSprite, Edge, Header, ImageType, Movie, PlaceObject, Rect, Scene, Shape, ShapeRecord, ShapeStyles,
    StyleChange, Tag, Vector2D,
};
use swfmod::patch::{Field, FieldName, PatchError, TagKind, TagModification, TagUpdate};
use swfmod::pipeline::{add_new_elements, apply_modifications, ModifyError};
use swfmod::transparency::apply_transparency;

fn header(version: u8) -> Header {
    Header { swf_version: version, frame_size: Rect { x_min: 0, x_max: 11000, y_min: 0, y_max: 8000 }, frame_rate: 6144, frame_count: 1 }
}

fn simple_shape() -> Shape {
    Shape {
        initial_styles: ShapeStyles { fill: vec![], line: vec![] },
        records: vec![
            ShapeRecord::StyleChange(StyleChange { move_to: Some(Vector2D { x: 0, y: 0 }), left_fill: None, right_fill: None, line_style: None, new_styles: None }),
            ShapeRecord::Edge(Edge { delta: Vector2D { x: 400, y: 0 }, control_delta: None }),
        ],
    }
}

fn shape_def(id: u16) -> Tag {
    Tag::DefineShape(DefineShape {
        id,
        bounds: Rect { x_min: 0, x_max: 100, y_min: 0, y_max: 100 },
        edge_bounds: None,
        has_fill_winding: false,
        has_non_scaling_strokes: false,
        has_scaling_strokes: true,
        shape: simple_shape(),
    })
}

fn place(id: u16, depth: u16) -> Tag {
    Tag::PlaceObject(PlaceObject { depth, character_id: Some(id), matrix: "null".to_string(), color_transform: "null".to_string(), encoded: "{}".to_string() })
}

fn no_removal() -> RemoveElements {
    RemoveElements { shapes: None, sprites: None, texts: None, buttons: None, bitmaps: None, frames: None, scenes: None }
}

fn references(tags: &[Tag], id: u16) -> usize {
    tags.iter()
        .map(|t| match t {
            Tag::DefineShape(d) if d.id == id => 1,
            Tag::PlaceObject(p) if p.character_id == Some(id) => 1,
            Tag::DefineSprite(s) => references(&s.tags, id),
            _ => 0,
        })
        .sum()
}

fn scenario_movie() -> Movie {
    Movie {
        header: header(10),
        tags: vec![
            shape_def(7),
            place(7, 1),
            Tag::DefineSprite(DefineSprite { id: 8, frame_count: 1, tags: vec![place(7, 1), place(9, 2)] }),
            Tag::FrameLabel { name: "intro".to_string(), is_anchor: false },
        ],
    }
}

#[test]
fn removing_shape_seven_clears_every_reference() {
    let mut movie = scenario_movie();
    let r = RemoveElements { shapes: Some(vec![7]), ..no_removal() };
    remove_swf_elements(&mut movie, &r);
    assert_eq!(references(&movie.tags, 7), 0);
    assert_eq!(movie.tags.len(), 2);
    match &movie.tags[0] {
        Tag::DefineSprite(s) => assert_eq!(s.tags, vec![place(9, 2)]),
        _ => panic!("sprite expected first"),
    }
}

#[test]
fn removal_twice_equals_removal_once() {
    let r = RemoveElements { shapes: Some(vec![7]), frames: Some(vec!["intro".to_string()]), ..no_removal() };
    let mut once = scenario_movie();
    remove_swf_elements(&mut once, &r);
    let mut twice = scenario_movie();
    remove_swf_elements(&mut twice, &r);
    remove_swf_elements(&mut twice, &r);
    assert_eq!(once, twice);
    assert!(!once.tags.iter().any(|t| matches!(t, Tag::FrameLabel { .. })));
}

#[test]
fn removing_scenes_filters_and_drops_empty_table() {
    let table = Tag::DefineSceneAndFrameLabelData {
        scenes: vec![Scene { offset: 0, name: "a".to_string() }, Scene { offset: 5, name: "b".to_string() }],
        labels: vec![],
    };
    let mut movie = Movie { header: header(10), tags: vec![table] };
    remove_swf_elements(&mut movie, &RemoveElements { scenes: Some(vec!["a".to_string()]), ..no_removal() });
    match &movie.tags[0] {
        Tag::DefineSceneAndFrameLabelData { scenes, .. } => assert_eq!(scenes, &vec![Scene { offset: 5, name: "b".to_string() }]),
        _ => panic!("scene table expected"),
    }
    remove_swf_elements(&mut movie, &RemoveElements { scenes: Some(vec!["b".to_string()]), ..no_removal() });
    assert!(movie.tags.is_empty());
}

#[test]
fn next_id_is_one_past_the_largest() {
    let mut movie = Movie { header: header(10), tags: vec![shape_def(3), place(3, 1), shape_def(12)] };
    assert_eq!(find_next_available_id(&movie), Some(13));
    movie.tags.push(Tag::DefineBinaryData { id: 40, data: vec![] });
    assert_eq!(find_next_available_id(&movie), Some(41));
    assert_eq!(find_next_available_id(&Movie { header: header(10), tags: vec![] }), Some(1));
    movie.tags.push(Tag::Encoded { defines: Some(70), json: "{}".to_string() });
    movie.tags.push(Tag::Encoded { defines: None, json: "{}".to_string() });
    assert_eq!(find_next_available_id(&movie), Some(71));
    assert_eq!(find_next_available_id(&Movie { header: header(10), tags: vec![shape_def(65535)] }), None);
}

#[test]
fn allocation_twice_gives_distinct_ids() {
    let mut movie = Movie { header: header(10), tags: vec![shape_def(5)] };
    let a = add_new_sprite(&mut movie, NewSprite { id: None, frame_count: 1, tags: vec![] }).unwrap();
    let b = add_new_sprite(&mut movie, NewSprite { id: None, frame_count: 1, tags: vec![] }).unwrap();
    assert_eq!((a, b), (6, 7));
}

#[test]
fn ids_exhausted_is_an_error() {
    let mut movie = Movie { header: header(10), tags: vec![shape_def(65535)] };
    let r = add_new_bitmap(&mut movie, NewBitmap { id: None, width: 1, height: 1, data: vec![0] });
    assert_eq!(r, Err(AddError::IdsExhausted));
    assert_eq!(movie.tags.len(), 1);
}

#[test]
fn new_shape_gets_computed_bounds() {
    let mut movie = Movie { header: header(10), tags: vec![shape_def(2)] };
    let id = add_new_shape(&mut movie, CompiledShape { id: None, bounds: None, shapes: vec![simple_shape(), simple_shape()] }).unwrap();
    assert_eq!(id, 3);
    match movie.tags.last().unwrap() {
        Tag::DefineShape(d) => {
            assert_eq!(d.bounds, Rect { x_min: -200, x_max: 600, y_min: -200, y_max: 200 });
            assert_eq!(d.shape, simple_shape());
        },
        _ => panic!("shape expected"),
    }
}

#[test]
fn new_shape_with_explicit_bounds_and_id() {
    let mut movie = Movie { header: header(10), tags: vec![] };
    let b = Bounds { x: BoundRange { min: -1, max: 1 }, y: BoundRange { min: -2, max: 2 } };
    let id = add_new_shape(&mut movie, CompiledShape { id: Some(50), bounds: Some(b), shapes: vec![simple_shape()] }).unwrap();
    assert_eq!(id, 50);
    match &movie.tags[0] {
        Tag::DefineShape(d) => assert_eq!(d.bounds, Rect { x_min: -1, x_max: 1, y_min: -2, y_max: 2 }),
        _ => panic!("shape expected"),
    }
}

#[test]
fn empty_source_is_an_error() {
    let mut movie = Movie { header: header(10), tags: vec![] };
    let r = add_new_shape(&mut movie, CompiledShape { id: None, bounds: None, shapes: vec![] });
    assert_eq!(r, Err(AddError::EmptySource));
}

#[test]
fn overflowing_shape_is_an_error() {
    let mut movie = Movie { header: header(10), tags: vec![] };
    let mut s = simple_shape();
    s.records[0] = ShapeRecord::StyleChange(StyleChange { move_to: Some(Vector2D { x: i32::MAX, y: 0 }), left_fill: None, right_fill: None, line_style: None, new_styles: None });
    let r = add_new_shape(&mut movie, CompiledShape { id: None, bounds: None, shapes: vec![s] });
    assert_eq!(r, Err(AddError::BoundsOverflow));
}

#[test]
fn scenes_merge_into_existing_table() {
    let mut movie = Movie {
        header: header(10),
        tags: vec![Tag::DefineSceneAndFrameLabelData { scenes: vec![Scene { offset: 0, name: "main".to_string() }], labels: vec![] }],
    };
    add_new_scenes(&mut movie, vec![NewScene { name: "extra".to_string(), offset: 3 }]);
    assert_eq!(movie.tags.len(), 1);
    match &movie.tags[0] {
        Tag::DefineSceneAndFrameLabelData { scenes, .. } => assert_eq!(scenes.len(), 2),
        _ => panic!(),
    }
    let mut bare = Movie { header: header(10), tags: vec![] };
    add_new_scenes(&mut bare, vec![NewScene { name: "only".to_string(), offset: 0 }]);
    assert_eq!(bare.tags.len(), 1);
}

#[test]
fn new_elements_count_earlier_additions() {
    let mut movie = Movie { header: header(10), tags: vec![shape_def(1)] };
    let elements = NewElements {
        shapes: Some(vec![CompiledShape { id: None, bounds: None, shapes: vec![simple_shape()] }]),
        sprites: Some(vec![NewSprite { id: None, frame_count: 2, tags: vec![] }]),
        texts: None,
        bitmaps: Some(vec![NewBitmap { id: None, width: 2, height: 2, data: vec![1, 2] }]),
        buttons: Some(vec![NewButton { states: vec![DefineButton { id: 30, records: "[]".to_string(), encoded: "{}".to_string() }] }]),
        scenes: None,
    };
    add_new_elements(&mut movie, elements).unwrap();
    let ids: Vec<Option<u16>> = movie.tags.iter().map(|t| match t {
        Tag::DefineShape(d) => Some(d.id),
        Tag::DefineSprite(d) => Some(d.id),
        Tag::DefineBitmap(d) => Some(d.id),
        Tag::DefineButton(d) => Some(d.id),
        _ => None,
    }).collect();
    assert_eq!(ids, vec![Some(1), Some(2), Some(3), Some(4), Some(30)]);
    match &movie.tags[3] {
        Tag::DefineBitmap(b) => assert_eq!(b.media_type, ImageType::Png),
        _ => panic!(),
    }
}

#[test]
fn transparency_raises_version_and_clears_fills() {
    let mut movie = Movie { header: header(6), tags: vec![shape_def(4), shape_def(4)] };
    apply_transparency(&mut movie, &vec![4, 99]);
    assert_eq!(movie.header.swf_version, 8);
    match &movie.tags[0] {
        Tag::DefineShape(d) => {
            assert_eq!(d.shape.initial_styles.fill.len(), 2);
            assert!(d.shape.initial_styles.fill.iter().all(|f| matches!(f, swfmod::model::FillStyle::Solid(c) if c.a == 0)));
            assert_eq!(d.shape.records, simple_shape().records);
            assert_eq!(d.bounds, Rect { x_min: 0, x_max: 100, y_min: 0, y_max: 100 });
            assert!(d.has_scaling_strokes);
            assert_eq!(d.edge_bounds, None);
        },
        _ => panic!(),
    }
    assert_eq!(movie.tags[1], shape_def(4));
}

#[test]
fn transparency_never_lowers_version() {
    let mut movie = Movie { header: header(10), tags: vec![] };
    apply_transparency(&mut movie, &vec![1]);
    assert_eq!(movie.header.swf_version, 10);
    let mut exact = Movie { header: header(8), tags: vec![] };
    apply_transparency(&mut exact, &vec![]);
    assert_eq!(exact.header.swf_version, 8);
}

#[test]
fn stage_bounds_override_and_removal() {
    let mut movie = scenario_movie();
    let config = SwfModification {
        bounds: Some(Bounds { x: BoundRange { min: 0, max: 500 }, y: BoundRange { min: 10, max: 400 } }),
        modifications: vec![],
        new_elements: None,
        remove_elements: Some(RemoveElements { shapes: Some(vec![7]), ..no_removal() }),
    };
    let r: Result<(), ModifyError> = apply_modifications(&mut movie, config);
    assert!(r.is_ok());
    assert_eq!(movie.header.frame_size, Rect { x_min: 0, x_max: 500, y_min: 10, y_max: 400 });
    assert_eq!(references(&movie.tags, 7), 0);
}

#[test]
fn movie_level_errors_are_reported() {
    let mut movie = Movie { header: header(10), tags: vec![Tag::FrameLabel { name: "a".to_string(), is_anchor: false }] };
    let config = SwfModification {
        bounds: None,
        modifications: vec![TagModification { id: 0, update: TagUpdate::FrameLabel { name: Field::Malformed("not text".to_string()) } }],
        new_elements: None,
        remove_elements: None,
    };
    let r = apply_modifications(&mut movie, config);
    assert_eq!(r, Err(ModifyError::Patch(PatchError { kind: TagKind::FrameLabel, field: FieldName::Name, message: "not text".to_string() })));
    let mut full = Movie { header: header(10), tags: vec![shape_def(65535)] };
    let config = SwfModification {
        bounds: None,
        modifications: vec![],
        new_elements: Some(NewElements { shapes: None, sprites: Some(vec![NewSprite { id: None, frame_count: 1, tags: vec![] }]), texts: None, bitmaps: None, buttons: None, scenes: None }),
        remove_elements: None,
    };
    assert_eq!(apply_modifications(&mut full, config), Err(ModifyError::Add(AddError::IdsExhausted)));
}

#[test]
fn placement_without_character_is_kept() {
    let anonymous = || Tag::PlaceObject(PlaceObject { depth: 3, character_id: None, matrix: "null".to_string(), color_transform: "null".to_string(), encoded: "{}".to_string() });
    let mut movie = Movie { header: header(10), tags: vec![anonymous(), place(0, 1)] };
    remove_swf_elements(&mut movie, &RemoveElements { shapes: Some(vec![0]), ..no_removal() });
    assert_eq!(movie.tags, vec![anonymous()]);
}
