//! The tag patch engine: field-level overrides applied to the first tag
//! that a modification targets.
use vstd::prelude::*;
use crate::bounds::{calculate_shape_bounds, spec_bounds, walk_fits};
use crate::model::{StyleChange, Label, Movie, NamedId, Rect, Rgb, Rgba, Scene, Shape, ShapeRecord, FillStyle, LineStyle, ShapeStyles, Tag, DefineShape, DefineSprite, DefineDynamicText, DefineBitmap, DefineButton, DefineText, DefineMorphShape, PlaceObject, FileAttributes};

verus! {

/// One override of a modification: absent, decoded, or present but not
/// decodable (with the decoder's message).
#[derive(Debug)]
pub enum Field<T> {
    Absent,
    Given(T),
    Malformed(String),
}

/// The name of an overridable field, as written in a patch configuration.
#[derive(Clone, Copy, Debug, PartialEq, Eq, Structural)]
pub enum FieldName {
    Data,
    Records,
    Transform,
    Text,
    Shape,
    Bounds,
    Styles,
    FillStyles,
    LineStyles,
    Tags,
    Actions,
    Name,
    Matrix,
    ColorTransform,
    Depth,
    BackgroundColor,
    Symbols,
    Scenes,
    Labels,
}

/// The kind of tag a modification targets.
#[derive(Clone, Copy, Debug, PartialEq, Eq, Structural)]
pub enum TagKind {
    DefineBinaryData,
    DefineBitmap,
    DefineButton,
    DefineButtonColorTransform,
    DefineDynamicText,
    DefineMorphShape,
    DefineShape,
    DefineSprite,
    DefineText,
    DoAbc,
    DoAction,
    FileAttributes,
    FrameLabel,
    PlaceObject,
    RemoveObject,
    SetBackgroundColor,
    SymbolClass,
    DefineSceneAndFrameLabelData,
}

/// Overrides for a shape definition. A whole-shape override takes
/// precedence over every other field; a whole style table takes precedence
/// over the fill-style and line-style lists.
#[derive(Debug)]
pub struct ShapeUpdate {
    pub shape: Field<Shape>,
    pub bounds: Field<Rect>,
    pub records: Field<Vec<ShapeRecord>>,
    pub styles: Field<ShapeStyles>,
    pub fill_styles: Field<Vec<FillStyle>>,
    pub line_styles: Field<Vec<LineStyle>>,
}

/// The overrides of one modification, by the kind of tag they target.
/// Fields whose values the engine does not interpret hold JSON encodings.
#[derive(Debug)]
pub enum TagUpdate {
    BinaryData { data: Field<Vec<u8>> },
    Bitmap { data: Field<Vec<u8>> },
    Button { records: Field<String> },
    ButtonColorTransform { transform: Field<String> },
    DynamicText { text: Field<Option<String>> },
    MorphShape { shape: Field<String> },
    Shape(ShapeUpdate),
    Sprite { tags: Field<Vec<Tag>> },
    Text { records: Field<String> },
    Abc { data: Field<Vec<u8>> },
    Action { actions: Field<Vec<u8>> },
    /// Flags given as JSON booleans; a value that is not one counts as false.
    FileAttributes {
        use_as3: Option<bool>,
        has_metadata: Option<bool>,
        use_network: Option<bool>,
        use_direct_blit: Option<bool>,
    },
    FrameLabel { name: Field<String> },
    PlaceObject { matrix: Field<String>, color_transform: Field<String> },
    RemoveObject { depth: Field<u16> },
    BackgroundColor { color: Field<Rgba> },
    SymbolClass { symbols: Field<Vec<NamedId>> },
    SceneData { scenes: Field<Vec<Scene>>, labels: Field<Vec<Label>> },
}

/// A modification: the character id it targets (ignored for kinds that
/// have none) and its overrides.
#[derive(Debug)]
pub struct TagModification {
    pub id: u16,
    pub update: TagUpdate,
}

/// A field of a targeted tag that could not be decoded.
#[derive(Debug, PartialEq)]
pub struct PatchError {
    pub kind: TagKind,
    pub field: FieldName,
    pub message: String,
}

pub open spec fn kind_of(u: TagUpdate) -> TagKind {
    match u {
        TagUpdate::BinaryData { .. } => TagKind::DefineBinaryData,
        TagUpdate::Bitmap { .. } => TagKind::DefineBitmap,
        TagUpdate::Button { .. } => TagKind::DefineButton,
        TagUpdate::ButtonColorTransform { .. } => TagKind::DefineButtonColorTransform,
        TagUpdate::DynamicText { .. } => TagKind::DefineDynamicText,
        TagUpdate::MorphShape { .. } => TagKind::DefineMorphShape,
        TagUpdate::Shape(_) => TagKind::DefineShape,
        TagUpdate::Sprite { .. } => TagKind::DefineSprite,
        TagUpdate::Text { .. } => TagKind::DefineText,
        TagUpdate::Abc { .. } => TagKind::DoAbc,
        TagUpdate::Action { .. } => TagKind::DoAction,
        TagUpdate::FileAttributes { .. } => TagKind::FileAttributes,
        TagUpdate::FrameLabel { .. } => TagKind::FrameLabel,
        TagUpdate::PlaceObject { .. } => TagKind::PlaceObject,
        TagUpdate::RemoveObject { .. } => TagKind::RemoveObject,
        TagUpdate::BackgroundColor { .. } => TagKind::SetBackgroundColor,
        TagUpdate::SymbolClass { .. } => TagKind::SymbolClass,
        TagUpdate::SceneData { .. } => TagKind::DefineSceneAndFrameLabelData,
    }
}

fn update_kind(u: &TagUpdate) -> (r: TagKind)
    ensures
        r == kind_of(*u),
{
    match u {
        TagUpdate::BinaryData { .. } => TagKind::DefineBinaryData,
        TagUpdate::Bitmap { .. } => TagKind::DefineBitmap,
        TagUpdate::Button { .. } => TagKind::DefineButton,
        TagUpdate::ButtonColorTransform { .. } => TagKind::DefineButtonColorTransform,
        TagUpdate::DynamicText { .. } => TagKind::DefineDynamicText,
        TagUpdate::MorphShape { .. } => TagKind::DefineMorphShape,
        TagUpdate::Shape(_) => TagKind::DefineShape,
        TagUpdate::Sprite { .. } => TagKind::DefineSprite,
        TagUpdate::Text { .. } => TagKind::DefineText,
        TagUpdate::Abc { .. } => TagKind::DoAbc,
        TagUpdate::Action { .. } => TagKind::DoAction,
        TagUpdate::FileAttributes { .. } => TagKind::FileAttributes,
        TagUpdate::FrameLabel { .. } => TagKind::FrameLabel,
        TagUpdate::PlaceObject { .. } => TagKind::PlaceObject,
        TagUpdate::RemoveObject { .. } => TagKind::RemoveObject,
        TagUpdate::BackgroundColor { .. } => TagKind::SetBackgroundColor,
        TagUpdate::SymbolClass { .. } => TagKind::SymbolClass,
        TagUpdate::SceneData { .. } => TagKind::DefineSceneAndFrameLabelData,
    }
}

/// Whether a modification targets tag `t`: a definition of the right kind
/// whose id is the modification's id, or any tag of a kind without an id.
pub open spec fn targets(t: Tag, m: TagModification) -> bool {
    match (t, m.update) {
        (Tag::DefineBinaryData { id, .. }, TagUpdate::BinaryData { .. }) => id == m.id,
        (Tag::DefineBitmap(b), TagUpdate::Bitmap { .. }) => b.id == m.id,
        (Tag::DefineButton(b), TagUpdate::Button { .. }) => b.id == m.id,
        (Tag::DefineButtonColorTransform { button_id, .. }, TagUpdate::ButtonColorTransform { .. }) => button_id == m.id,
        (Tag::DefineDynamicText(d), TagUpdate::DynamicText { .. }) => d.id == m.id,
        (Tag::DefineMorphShape(d), TagUpdate::MorphShape { .. }) => d.id == m.id,
        (Tag::DefineShape(d), TagUpdate::Shape(_)) => d.id == m.id,
        (Tag::DefineSprite(d), TagUpdate::Sprite { .. }) => d.id == m.id,
        (Tag::DefineText(d), TagUpdate::Text { .. }) => d.id == m.id,
        (Tag::DoAbc { .. }, TagUpdate::Abc { .. }) => true,
        (Tag::DoAction { .. }, TagUpdate::Action { .. }) => true,
        (Tag::FileAttributes(_), TagUpdate::FileAttributes { .. }) => true,
        (Tag::FrameLabel { .. }, TagUpdate::FrameLabel { .. }) => true,
        (Tag::PlaceObject(_), TagUpdate::PlaceObject { .. }) => true,
        (Tag::RemoveObject { .. }, TagUpdate::RemoveObject { .. }) => true,
        (Tag::SetBackgroundColor { .. }, TagUpdate::BackgroundColor { .. }) => true,
        (Tag::SymbolClass { .. }, TagUpdate::SymbolClass { .. }) => true,
        (Tag::DefineSceneAndFrameLabelData { .. }, TagUpdate::SceneData { .. }) => true,
        _ => false,
    }
}

fn is_target(t: &Tag, m: &TagModification) -> (r: bool)
    ensures
        r == targets(*t, *m),
{
    match (t, &m.update) {
        (Tag::DefineBinaryData { id, .. }, TagUpdate::BinaryData { .. }) => *id == m.id,
        (Tag::DefineBitmap(b), TagUpdate::Bitmap { .. }) => b.id == m.id,
        (Tag::DefineButton(b), TagUpdate::Button { .. }) => b.id == m.id,
        (Tag::DefineButtonColorTransform { button_id, .. }, TagUpdate::ButtonColorTransform { .. }) => *button_id == m.id,
        (Tag::DefineDynamicText(d), TagUpdate::DynamicText { .. }) => d.id == m.id,
        (Tag::DefineMorphShape(d), TagUpdate::MorphShape { .. }) => d.id == m.id,
        (Tag::DefineShape(d), TagUpdate::Shape(_)) => d.id == m.id,
        (Tag::DefineSprite(d), TagUpdate::Sprite { .. }) => d.id == m.id,
        (Tag::DefineText(d), TagUpdate::Text { .. }) => d.id == m.id,
        (Tag::DoAbc { .. }, TagUpdate::Abc { .. }) => true,
        (Tag::DoAction { .. }, TagUpdate::Action { .. }) => true,
        (Tag::FileAttributes(_), TagUpdate::FileAttributes { .. }) => true,
        (Tag::FrameLabel { .. }, TagUpdate::FrameLabel { .. }) => true,
        (Tag::PlaceObject(_), TagUpdate::PlaceObject { .. }) => true,
        (Tag::RemoveObject { .. }, TagUpdate::RemoveObject { .. }) => true,
        (Tag::SetBackgroundColor { .. }, TagUpdate::BackgroundColor { .. }) => true,
        (Tag::SymbolClass { .. }, TagUpdate::SymbolClass { .. }) => true,
        (Tag::DefineSceneAndFrameLabelData { .. }, TagUpdate::SceneData { .. }) => true,
        _ => false,
    }
}

/// The index of the first tag of `tags` that `m` targets.
pub open spec fn first_target(tags: Seq<Tag>, m: TagModification) -> Option<int>
    decreases tags.len(),
{
    if tags.len() == 0 {
        None
    } else {
        match first_target(tags.drop_last(), m) {
            Some(i) => Some(i),
            None => if targets(tags.last(), m) { Some(tags.len() - 1) } else { None },
        }
    }
}

/// The fault of one field, if it could not be decoded.
pub open spec fn fault<T>(f: Field<T>, name: FieldName) -> Option<(FieldName, String)> {
    match f {
        Field::Malformed(m) => Some((name, m)),
        _ => None,
    }
}

pub open spec fn or_else(a: Option<(FieldName, String)>, b: Option<(FieldName, String)>) -> Option<(FieldName, String)> {
    match a {
        Some(x) => Some(x),
        None => b,
    }
}

/// The first field, in the order the engine consults them, that could not
/// be decoded. Fields that a precedence rule sets aside are not consulted.
pub open spec fn first_fault(u: TagUpdate) -> Option<(FieldName, String)> {
    match u {
        TagUpdate::BinaryData { data } => fault(data, FieldName::Data),
        TagUpdate::Bitmap { data } => fault(data, FieldName::Data),
        TagUpdate::Button { records } => fault(records, FieldName::Records),
        TagUpdate::ButtonColorTransform { transform } => fault(transform, FieldName::Transform),
        TagUpdate::DynamicText { text } => fault(text, FieldName::Text),
        TagUpdate::MorphShape { shape } => fault(shape, FieldName::Shape),
        TagUpdate::Shape(s) => if !(s.shape is Absent) {
            fault(s.shape, FieldName::Shape)
        } else {
            or_else(fault(s.bounds, FieldName::Bounds), or_else(fault(s.records, FieldName::Records),
                if !(s.styles is Absent) {
                    fault(s.styles, FieldName::Styles)
                } else {
                    or_else(fault(s.fill_styles, FieldName::FillStyles), fault(s.line_styles, FieldName::LineStyles))
                }))
        },
        TagUpdate::Sprite { tags } => fault(tags, FieldName::Tags),
        TagUpdate::Text { records } => fault(records, FieldName::Records),
        TagUpdate::Abc { data } => fault(data, FieldName::Data),
        TagUpdate::Action { actions } => fault(actions, FieldName::Actions),
        TagUpdate::FileAttributes { .. } => None,
        TagUpdate::FrameLabel { name } => fault(name, FieldName::Name),
        TagUpdate::PlaceObject { matrix, color_transform } =>
            or_else(fault(matrix, FieldName::Matrix), fault(color_transform, FieldName::ColorTransform)),
        TagUpdate::RemoveObject { depth } => fault(depth, FieldName::Depth),
        TagUpdate::BackgroundColor { color } => fault(color, FieldName::BackgroundColor),
        TagUpdate::SymbolClass { symbols } => fault(symbols, FieldName::Symbols),
        TagUpdate::SceneData { scenes, labels } =>
            or_else(fault(scenes, FieldName::Scenes), fault(labels, FieldName::Labels)),
    }
}

/// The given value of a field, or `old` when the field is not given.
pub open spec fn given_or<T>(f: Field<T>, old: T) -> T {
    match f {
        Field::Given(v) => v,
        _ => old,
    }
}

pub open spec fn flag_or(f: Option<bool>, old: bool) -> bool {
    match f {
        Some(b) => b,
        None => old,
    }
}

/// A shape definition after its overrides.
pub open spec fn updated_shape(d: DefineShape, s: ShapeUpdate) -> DefineShape {
    match s.shape {
        Field::Given(whole) => DefineShape { shape: whole, ..d },
        _ => {
            let styles = match s.styles {
                Field::Given(st) => st,
                _ => ShapeStyles {
                    fill: given_or(s.fill_styles, d.shape.initial_styles.fill),
                    line: given_or(s.line_styles, d.shape.initial_styles.line),
                },
            };
            DefineShape {
                bounds: given_or(s.bounds, d.bounds),
                shape: Shape { initial_styles: styles, records: given_or(s.records, d.shape.records) },
                ..d
            }
        },
    }
}

/// A targeted tag after the overrides of `u`.
pub open spec fn updated(t: Tag, u: TagUpdate) -> Tag {
    match (t, u) {
        (Tag::DefineBinaryData { id, data }, TagUpdate::BinaryData { data: f }) =>
            Tag::DefineBinaryData { id, data: given_or(f, data) },
        (Tag::DefineBitmap(b), TagUpdate::Bitmap { data }) =>
            Tag::DefineBitmap(DefineBitmap { data: given_or(data, b.data), ..b }),
        (Tag::DefineButton(b), TagUpdate::Button { records }) =>
            Tag::DefineButton(DefineButton { records: given_or(records, b.records), ..b }),
        (Tag::DefineButtonColorTransform { button_id, transform }, TagUpdate::ButtonColorTransform { transform: f }) =>
            Tag::DefineButtonColorTransform { button_id, transform: given_or(f, transform) },
        (Tag::DefineDynamicText(d), TagUpdate::DynamicText { text }) =>
            Tag::DefineDynamicText(DefineDynamicText { text: given_or(text, d.text), ..d }),
        (Tag::DefineMorphShape(d), TagUpdate::MorphShape { shape }) =>
            Tag::DefineMorphShape(DefineMorphShape { shape: given_or(shape, d.shape), ..d }),
        (Tag::DefineShape(d), TagUpdate::Shape(s)) => Tag::DefineShape(updated_shape(d, s)),
        (Tag::DefineSprite(d), TagUpdate::Sprite { tags }) =>
            Tag::DefineSprite(DefineSprite { tags: given_or(tags, d.tags), ..d }),
        (Tag::DefineText(d), TagUpdate::Text { records }) =>
            Tag::DefineText(DefineText { records: given_or(records, d.records), ..d }),
        (Tag::DoAbc { header, data }, TagUpdate::Abc { data: f }) => Tag::DoAbc { header, data: given_or(f, data) },
        (Tag::DoAction { actions }, TagUpdate::Action { actions: f }) => Tag::DoAction { actions: given_or(f, actions) },
        (Tag::FileAttributes(a), TagUpdate::FileAttributes { use_as3, has_metadata, use_network, use_direct_blit }) =>
            Tag::FileAttributes(FileAttributes {
                use_as3: flag_or(use_as3, a.use_as3),
                has_metadata: flag_or(has_metadata, a.has_metadata),
                use_network: flag_or(use_network, a.use_network),
                use_direct_blit: flag_or(use_direct_blit, a.use_direct_blit),
                ..a
            }),
        (Tag::FrameLabel { name, is_anchor }, TagUpdate::FrameLabel { name: f }) =>
            Tag::FrameLabel { name: given_or(f, name), is_anchor },
        (Tag::PlaceObject(p), TagUpdate::PlaceObject { matrix, color_transform }) =>
            Tag::PlaceObject(PlaceObject {
                matrix: given_or(matrix, p.matrix),
                color_transform: given_or(color_transform, p.color_transform),
                ..p
            }),
        (Tag::RemoveObject { character_id, depth }, TagUpdate::RemoveObject { depth: f }) =>
            Tag::RemoveObject { character_id, depth: given_or(f, depth) },
        (Tag::SetBackgroundColor { color }, TagUpdate::BackgroundColor { color: f }) =>
            Tag::SetBackgroundColor {
                color: match f {
                    Field::Given(c) => Rgb { r: c.r, g: c.g, b: c.b },
                    _ => color,
                },
            },
        (Tag::SymbolClass { symbols }, TagUpdate::SymbolClass { symbols: f }) =>
            Tag::SymbolClass { symbols: given_or(f, symbols) },
        (Tag::DefineSceneAndFrameLabelData { scenes, labels }, TagUpdate::SceneData { scenes: fs, labels: fl }) =>
            Tag::DefineSceneAndFrameLabelData { scenes: given_or(fs, scenes), labels: given_or(fl, labels) },
        _ => t,
    }
}

fn take<T>(f: Field<T>, old: T) -> (r: T)
    ensures
        r == given_or(f, old),
{
    match f {
        Field::Given(v) => v,
        _ => old,
    }
}

fn flag(f: Option<bool>, old: bool) -> (r: bool)
    ensures
        r == flag_or(f, old),
{
    match f {
        Some(b) => b,
        None => old,
    }
}

fn check<T>(f: &Field<T>, name: FieldName) -> (r: Option<(FieldName, String)>)
    ensures
        r == fault(*f, name),
{
    match f {
        Field::Malformed(m) => Some((name, m.clone())),
        _ => None,
    }
}

fn either(a: Option<(FieldName, String)>, b: Option<(FieldName, String)>) -> (r: Option<(FieldName, String)>)
    ensures
        r == or_else(a, b),
{
    match a {
        Some(x) => Some(x),
        None => b,
    }
}

/// Finds the first field of `u` that the engine consults and that could
/// not be decoded.
fn find_fault(u: &TagUpdate) -> (r: Option<(FieldName, String)>)
    ensures
        r == first_fault(*u),
{
    match u {
        TagUpdate::BinaryData { data } => check(data, FieldName::Data),
        TagUpdate::Bitmap { data } => check(data, FieldName::Data),
        TagUpdate::Button { records } => check(records, FieldName::Records),
        TagUpdate::ButtonColorTransform { transform } => check(transform, FieldName::Transform),
        TagUpdate::DynamicText { text } => check(text, FieldName::Text),
        TagUpdate::MorphShape { shape } => check(shape, FieldName::Shape),
        TagUpdate::Shape(s) => {
            if !matches!(s.shape, Field::Absent) {
                check(&s.shape, FieldName::Shape)
            } else {
                let styles = if !matches!(s.styles, Field::Absent) {
                    check(&s.styles, FieldName::Styles)
                } else {
                    either(check(&s.fill_styles, FieldName::FillStyles), check(&s.line_styles, FieldName::LineStyles))
                };
                either(check(&s.bounds, FieldName::Bounds), either(check(&s.records, FieldName::Records), styles))
            }
        },
        TagUpdate::Sprite { tags } => check(tags, FieldName::Tags),
        TagUpdate::Text { records } => check(records, FieldName::Records),
        TagUpdate::Abc { data } => check(data, FieldName::Data),
        TagUpdate::Action { actions } => check(actions, FieldName::Actions),
        TagUpdate::FileAttributes { .. } => None,
        TagUpdate::FrameLabel { name } => check(name, FieldName::Name),
        TagUpdate::PlaceObject { matrix, color_transform } =>
            either(check(matrix, FieldName::Matrix), check(color_transform, FieldName::ColorTransform)),
        TagUpdate::RemoveObject { depth } => check(depth, FieldName::Depth),
        TagUpdate::BackgroundColor { color } => check(color, FieldName::BackgroundColor),
        TagUpdate::SymbolClass { symbols } => check(symbols, FieldName::Symbols),
        TagUpdate::SceneData { scenes, labels } =>
            either(check(scenes, FieldName::Scenes), check(labels, FieldName::Labels)),
    }
}

fn update_shape(d: DefineShape, s: ShapeUpdate) -> (r: DefineShape)
    ensures
        r == updated_shape(d, s),
{
    let DefineShape { id, bounds, edge_bounds, has_fill_winding, has_non_scaling_strokes, has_scaling_strokes, shape } = d;
    let ShapeUpdate { shape: whole, bounds: new_bounds, records, styles, fill_styles, line_styles } = s;
    match whole {
        Field::Given(w) => DefineShape {
            id, bounds, edge_bounds, has_fill_winding, has_non_scaling_strokes, has_scaling_strokes, shape: w,
        },
        _ => {
            let Shape { initial_styles, records: old_records } = shape;
            let new_styles = match styles {
                Field::Given(st) => st,
                _ => {
                    let ShapeStyles { fill, line } = initial_styles;
                    ShapeStyles { fill: take(fill_styles, fill), line: take(line_styles, line) }
                },
            };
            DefineShape {
                id,
                bounds: take(new_bounds, bounds),
                edge_bounds,
                has_fill_winding,
                has_non_scaling_strokes,
                has_scaling_strokes,
                shape: Shape { initial_styles: new_styles, records: take(records, old_records) },
            }
        },
    }
}

/// Applies the overrides of `u` to a tag it targets.
fn update_tag(t: Tag, u: TagUpdate) -> (r: Tag)
    ensures
        r == updated(t, u),
{
    match (t, u) {
        (Tag::DefineBinaryData { id, data }, TagUpdate::BinaryData { data: f }) =>
            Tag::DefineBinaryData { id, data: take(f, data) },
        (Tag::DefineBitmap(b), TagUpdate::Bitmap { data }) => {
            let DefineBitmap { id, width, height, media_type, data: old } = b;
            Tag::DefineBitmap(DefineBitmap { id, width, height, media_type, data: take(data, old) })
        },
        (Tag::DefineButton(b), TagUpdate::Button { records }) => {
            let DefineButton { id, records: old, encoded } = b;
            Tag::DefineButton(DefineButton { id, records: take(records, old), encoded })
        },
        (Tag::DefineButtonColorTransform { button_id, transform }, TagUpdate::ButtonColorTransform { transform: f }) =>
            Tag::DefineButtonColorTransform { button_id, transform: take(f, transform) },
        (Tag::DefineDynamicText(mut d), TagUpdate::DynamicText { text }) => {
            let old = d.text;
            d.text = take(text, old);
            Tag::DefineDynamicText(d)
        },
        (Tag::DefineMorphShape(d), TagUpdate::MorphShape { shape }) => {
            let DefineMorphShape { id, shape: old, encoded } = d;
            Tag::DefineMorphShape(DefineMorphShape { id, shape: take(shape, old), encoded })
        },
        (Tag::DefineShape(d), TagUpdate::Shape(s)) => Tag::DefineShape(update_shape(d, s)),
        (Tag::DefineSprite(d), TagUpdate::Sprite { tags }) => {
            let DefineSprite { id, frame_count, tags: old } = d;
            Tag::DefineSprite(DefineSprite { id, frame_count, tags: take(tags, old) })
        },
        (Tag::DefineText(d), TagUpdate::Text { records }) => {
            let DefineText { id, records: old, encoded } = d;
            Tag::DefineText(DefineText { id, records: take(records, old), encoded })
        },
        (Tag::DoAbc { header, data }, TagUpdate::Abc { data: f }) => Tag::DoAbc { header, data: take(f, data) },
        (Tag::DoAction { actions }, TagUpdate::Action { actions: f }) => Tag::DoAction { actions: take(f, actions) },
        (Tag::FileAttributes(a), TagUpdate::FileAttributes { use_as3, has_metadata, use_network, use_direct_blit }) =>
            Tag::FileAttributes(FileAttributes {
                use_network: flag(use_network, a.use_network),
                use_relative_urls: a.use_relative_urls,
                no_cross_domain_caching: a.no_cross_domain_caching,
                use_as3: flag(use_as3, a.use_as3),
                has_metadata: flag(has_metadata, a.has_metadata),
                use_gpu: a.use_gpu,
                use_direct_blit: flag(use_direct_blit, a.use_direct_blit),
            }),
        (Tag::FrameLabel { name, is_anchor }, TagUpdate::FrameLabel { name: f }) =>
            Tag::FrameLabel { name: take(f, name), is_anchor },
        (Tag::PlaceObject(p), TagUpdate::PlaceObject { matrix, color_transform }) => {
            let PlaceObject { depth, character_id, matrix: old_matrix, color_transform: old_ct, encoded } = p;
            Tag::PlaceObject(PlaceObject {
                depth,
                character_id,
                matrix: take(matrix, old_matrix),
                color_transform: take(color_transform, old_ct),
                encoded,
            })
        },
        (Tag::RemoveObject { character_id, depth }, TagUpdate::RemoveObject { depth: f }) =>
            Tag::RemoveObject { character_id, depth: take(f, depth) },
        (Tag::SetBackgroundColor { color }, TagUpdate::BackgroundColor { color: f }) => {
            let c = match f {
                Field::Given(c) => Rgb { r: c.r, g: c.g, b: c.b },
                _ => color,
            };
            Tag::SetBackgroundColor { color: c }
        },
        (Tag::SymbolClass { symbols }, TagUpdate::SymbolClass { symbols: f }) =>
            Tag::SymbolClass { symbols: take(f, symbols) },
        (Tag::DefineSceneAndFrameLabelData { scenes, labels }, TagUpdate::SceneData { scenes: fs, labels: fl }) =>
            Tag::DefineSceneAndFrameLabelData { scenes: take(fs, scenes), labels: take(fl, labels) },
        (t, _) => t,
    }
}

/// Applies one modification to the first tag it targets. Nothing changes
/// when no tag is targeted; when a consulted field of a targeted tag could
/// not be decoded, the movie is left unchanged and that field is reported.
pub fn apply_tag_modification(movie: &mut Movie, m: TagModification) -> (r: Result<(), PatchError>)
    ensures
        match first_target(old(movie).tags@, m) {
            None => r is Ok && *final(movie) == *old(movie),
            Some(i) => match first_fault(m.update) {
                Some(f) => r == Err::<(), PatchError>(PatchError { kind: kind_of(m.update), field: f.0, message: f.1 })
                    && *final(movie) == *old(movie),
                None => {
                    &&& r is Ok
                    &&& final(movie).header == old(movie).header
                    &&& final(movie).tags@ == old(movie).tags@.update(i, updated(old(movie).tags@[i], m.update))
                },
            },
        },
{
    let mut i: usize = 0;
    while i < movie.tags.len()
        invariant
            0 <= i <= movie.tags.len(),
            *movie == *old(movie),
            first_target(movie.tags@.subrange(0, i as int), m) is None,
        decreases movie.tags.len() - i,
    {
        proof {
            let next = movie.tags@.subrange(0, i + 1);
            assert(next.drop_last() =~= movie.tags@.subrange(0, i as int));
        }
        if is_target(&movie.tags[i], &m) {
            proof {
                lemma_first_target_prefix(movie.tags@, m, i as int);
            }
            if let Some((field, message)) = find_fault(&m.update) {
                let kind = update_kind(&m.update);
                return Err(PatchError { kind, field, message });
            }
            let t = movie.tags.remove(i);
            let u = update_tag(t, m.update);
            movie.tags.insert(i, u);
            proof {
                assert(movie.tags@ =~= old(movie).tags@.update(i as int, updated(old(movie).tags@[i as int], m.update)));
            }
            return Ok(());
        }
        i += 1;
    }
    proof {
        assert(movie.tags@.subrange(0, movie.tags@.len() as int) =~= movie.tags@);
    }
    Ok(())
}

/// When no tag before `i` is targeted and the tag at `i` is, `i` is the
/// first target.
proof fn lemma_first_target_prefix(tags: Seq<Tag>, m: TagModification, i: int)
    requires
        0 <= i < tags.len(),
        first_target(tags.subrange(0, i), m) is None,
        targets(tags[i], m),
    ensures
        first_target(tags, m) == Some(i),
    decreases tags.len() - i,
{
    let next = tags.subrange(0, i + 1);
    assert(next.drop_last() =~= tags.subrange(0, i));
    assert(first_target(next, m) == Some(i));
    lemma_first_target_extends(tags, m, i + 1, i);
}

proof fn lemma_first_target_extends(tags: Seq<Tag>, m: TagModification, n: int, i: int)
    requires
        0 <= i < n <= tags.len(),
        first_target(tags.subrange(0, n), m) == Some(i),
    ensures
        first_target(tags, m) == Some(i),
    decreases tags.len() - n,
{
    if n == tags.len() {
        assert(tags.subrange(0, n) =~= tags);
    } else {
        let next = tags.subrange(0, n + 1);
        assert(next.drop_last() =~= tags.subrange(0, n));
        lemma_first_target_extends(tags, m, n + 1, i);
    }
}

/// Why a shape could not be replaced.
#[derive(Clone, Copy, Debug, PartialEq, Eq, Structural)]
pub enum ReplaceError {
    /// No shape definition has the id, or there is no new shape.
    NotFound,
    /// The new shape reaches too far for its padded bounds.
    BoundsOverflow,
}

/// A style change that selects the first fill on its left and none on its right.
pub open spec fn refilled(r: ShapeRecord) -> ShapeRecord {
    match r {
        ShapeRecord::StyleChange(sc) => ShapeRecord::StyleChange(StyleChange { left_fill: Some(1), right_fill: None, ..sc }),
        _ => r,
    }
}

pub open spec fn refill_all() -> spec_fn(ShapeRecord) -> ShapeRecord {
    |r: ShapeRecord| refilled(r)
}

/// Whether the replacement keeps the old fills: the new shape has none and
/// the old one has some.
pub open spec fn inherits_fills(old_fill: Seq<FillStyle>, new: Shape) -> bool {
    new.initial_styles.fill@.len() == 0 && old_fill.len() > 0
}

/// The records the replacement installs.
pub open spec fn replacement_records(old_fill: Seq<FillStyle>, new: Shape) -> Seq<ShapeRecord> {
    if inherits_fills(old_fill, new) {
        new.records@.map_values(refill_all())
    } else {
        new.records@
    }
}

/// The index of the first shape definition with id `id`.
pub open spec fn first_shape(tags: Seq<Tag>, id: u16) -> Option<int>
    decreases tags.len(),
{
    if tags.len() == 0 {
        None
    } else {
        match first_shape(tags.drop_last(), id) {
            Some(i) => Some(i),
            None => if tags.last() matches Tag::DefineShape(d) && d.id == id { Some(tags.len() - 1) } else { None },
        }
    }
}

/// `n` is shape definition `o` with `new` installed: the new style table
/// (keeping the old fills when the new shape has none, every style change
/// then selecting the first fill), the new records, and bounds recomputed.
pub open spec fn is_replacement(o: Tag, n: Tag, new: Shape) -> bool {
    match (o, n) {
        (Tag::DefineShape(a), Tag::DefineShape(b)) => {
            let old_fill = a.shape.initial_styles.fill@;
            &&& b.id == a.id
            &&& b.edge_bounds == a.edge_bounds
            &&& b.has_fill_winding == a.has_fill_winding
            &&& b.has_non_scaling_strokes == a.has_non_scaling_strokes
            &&& b.has_scaling_strokes == a.has_scaling_strokes
            &&& b.shape.records@ == replacement_records(old_fill, new)
            &&& b.shape.initial_styles.fill == if inherits_fills(old_fill, new) {
                a.shape.initial_styles.fill
            } else {
                new.initial_styles.fill
            }
            &&& b.shape.initial_styles.line == new.initial_styles.line
            &&& b.bounds == spec_bounds(b.shape.records@)
        },
        _ => false,
    }
}

fn refill_records(records: Vec<ShapeRecord>) -> (r: Vec<ShapeRecord>)
    ensures
        r@ == records@.map_values(refill_all()),
{
    let ghost orig = records@;
    let mut rest = records;
    let mut out: Vec<ShapeRecord> = Vec::new();
    let mut k: usize = 0;
    let total = rest.len();
    while rest.len() > 0
        invariant
            k + rest@.len() == orig.len(),
            orig.len() == total,
            rest@ == orig.subrange(k as int, orig.len() as int),
            out@ == orig.subrange(0, k as int).map_values(refill_all()),
        decreases rest@.len(),
    {
        let rec = rest.remove(0);
        let n = match rec {
            ShapeRecord::StyleChange(sc) => {
                let StyleChange { move_to, left_fill: _, right_fill: _, line_style, new_styles } = sc;
                ShapeRecord::StyleChange(StyleChange { move_to, left_fill: Some(1), right_fill: None, line_style, new_styles })
            },
            other => other,
        };
        out.push(n);
        proof {
            assert(orig.subrange(0, k + 1).map_values(refill_all()) =~= orig.subrange(0, k as int).map_values(refill_all()).push(refilled(rec)));
        }
        k += 1;
        proof {
            assert(rest@ =~= orig.subrange(k as int, orig.len() as int));
        }
    }
    proof {
        assert(orig.subrange(0, k as int) =~= orig);
    }
    out
}

/// Installs the first of `new_shapes` in the first shape definition with
/// id `shape_id`, recomputing its bounds. When the new shape has no fills
/// and the old one has, the old fills stay and every style change selects
/// the first of them.
pub fn replace_shape_in_movie(movie: &mut Movie, shape_id: u16, new_shapes: Vec<Shape>) -> (r: Result<(), ReplaceError>)
    ensures
        final(movie).header == old(movie).header,
        (first_shape(old(movie).tags@, shape_id) is None || new_shapes@.len() == 0)
            ==> r == Err::<(), ReplaceError>(ReplaceError::NotFound) && *final(movie) == *old(movie),
        first_shape(old(movie).tags@, shape_id) is Some && new_shapes@.len() > 0 ==> {
            let i = first_shape(old(movie).tags@, shape_id)->Some_0;
            let o = old(movie).tags@[i];
            let fits = walk_fits(replacement_records(o->DefineShape_0.shape.initial_styles.fill@, new_shapes@[0]));
            &&& !fits ==> r == Err::<(), ReplaceError>(ReplaceError::BoundsOverflow) && *final(movie) == *old(movie)
            &&& fits ==> {
                &&& r is Ok
                &&& final(movie).tags@.len() == old(movie).tags@.len()
                &&& forall|j: int| 0 <= j < old(movie).tags@.len() && j != i ==> final(movie).tags@[j] == old(movie).tags@[j]
                &&& is_replacement(o, final(movie).tags@[i], new_shapes@[0])
            }
        },
{
    let mut i: usize = 0;
    while i < movie.tags.len()
        invariant
            0 <= i <= movie.tags.len(),
            *movie == *old(movie),
            first_shape(movie.tags@.subrange(0, i as int), shape_id) is None,
        decreases movie.tags.len() - i,
    {
        proof {
            assert(movie.tags@.subrange(0, i + 1).drop_last() =~= movie.tags@.subrange(0, i as int));
        }
        let hit = match &movie.tags[i] {
            Tag::DefineShape(d) => d.id == shape_id,
            _ => false,
        };
        if hit {
            proof {
                lemma_first_shape(movie.tags@, shape_id, i as int);
            }
            if new_shapes.len() == 0 {
                return Err(ReplaceError::NotFound);
            }
            let old_fill_count = match &movie.tags[i] {
                Tag::DefineShape(d) => d.shape.initial_styles.fill.len(),
                _ => 0,
            };
            let mut shapes = new_shapes;
            let new_shape = shapes.remove(0);
            let Shape { initial_styles: new_styles, records: new_records } = new_shape;
            let inherit = new_styles.fill.len() == 0 && old_fill_count > 0;
            let records = if inherit { refill_records(new_records) } else { new_records };
            let candidate = Shape { initial_styles: new_styles, records };
            let b = match calculate_shape_bounds(&candidate) {
                Some(b) => b,
                None => return Err(ReplaceError::BoundsOverflow),
            };
            let Shape { initial_styles: ShapeStyles { fill: new_fill, line: new_line }, records } = candidate;
            let t = movie.tags.remove(i);
            if let Tag::DefineShape(d) = t {
                let DefineShape { id, bounds: _, edge_bounds, has_fill_winding, has_non_scaling_strokes, has_scaling_strokes, shape } = d;
                let fill = if inherit { shape.initial_styles.fill } else { new_fill };
                movie.tags.insert(i, Tag::DefineShape(DefineShape {
                    id,
                    bounds: b,
                    edge_bounds,
                    has_fill_winding,
                    has_non_scaling_strokes,
                    has_scaling_strokes,
                    shape: Shape { initial_styles: ShapeStyles { fill, line: new_line }, records },
                }));
                proof {
                    assert forall|j: int| 0 <= j < old(movie).tags@.len() && j != i implies movie.tags@[j] == old(movie).tags@[j] by {
                        if j < i {
                            assert(movie.tags@[j] == old(movie).tags@[j]);
                        } else {
                            assert(movie.tags@[j] == old(movie).tags@[j]);
                        }
                    }
                }
            } else {
                movie.tags.insert(i, t);
            }
            return Ok(());
        }
        i += 1;
    }
    proof {
        assert(movie.tags@.subrange(0, movie.tags@.len() as int) =~= movie.tags@);
    }
    Err(ReplaceError::NotFound)
}

proof fn lemma_first_shape(tags: Seq<Tag>, id: u16, i: int)
    requires
        0 <= i < tags.len(),
        first_shape(tags.subrange(0, i), id) is None,
        tags[i] matches Tag::DefineShape(d) && d.id == id,
    ensures
        first_shape(tags, id) == Some(i),
    decreases tags.len() - i,
{
    assert(tags.subrange(0, i + 1).drop_last() =~= tags.subrange(0, i));
    lemma_first_shape_extends(tags, id, i + 1, i);
}

proof fn lemma_first_shape_extends(tags: Seq<Tag>, id: u16, n: int, i: int)
    requires
        0 <= i < n <= tags.len(),
        first_shape(tags.subrange(0, n), id) == Some(i),
    ensures
        first_shape(tags, id) == Some(i),
    decreases tags.len() - n,
{
    if n == tags.len() {
        assert(tags.subrange(0, n) =~= tags);
    } else {
        assert(tags.subrange(0, n + 1).drop_last() =~= tags.subrange(0, n));
        lemma_first_shape_extends(tags, id, n + 1, i);
    }
}

/// The tags after one modification, or the fault it reports.
pub open spec fn patch_one(tags: Seq<Tag>, m: TagModification) -> Result<Seq<Tag>, PatchError> {
    match first_target(tags, m) {
        None => Ok(tags),
        Some(i) => match first_fault(m.update) {
            Some(f) => Err(PatchError { kind: kind_of(m.update), field: f.0, message: f.1 }),
            None => Ok(tags.update(i, updated(tags[i], m.update))),
        },
    }
}

/// The tags after modifications applied in order, or the first fault.
pub open spec fn patch_all(tags: Seq<Tag>, mods: Seq<TagModification>) -> Result<Seq<Tag>, PatchError>
    decreases mods.len(),
{
    if mods.len() == 0 {
        Ok(tags)
    } else {
        match patch_all(tags, mods.drop_last()) {
            Err(e) => Err(e),
            Ok(t) => patch_one(t, mods.last()),
        }
    }
}

/// Applies modifications in order; stops at the first fault, after which
/// the movie must be discarded.
pub fn apply_tag_modifications(movie: &mut Movie, mods: Vec<TagModification>) -> (r: Result<(), PatchError>)
    ensures
        final(movie).header == old(movie).header,
        match patch_all(old(movie).tags@, mods@) {
            Ok(t) => r is Ok && final(movie).tags@ == t,
            Err(e) => r == Err::<(), PatchError>(e),
        },
{
    let ghost orig = mods@;
    let mut rest = mods;
    let mut k: usize = 0;
    let total = rest.len();
    proof {
        assert(orig.subrange(0, 0) =~= Seq::<TagModification>::empty());
    }
    while rest.len() > 0
        invariant
            k + rest@.len() == orig.len(),
            orig.len() == total,
            rest@ == orig.subrange(k as int, orig.len() as int),
            orig == mods@,
            movie.header == old(movie).header,
            patch_all(old(movie).tags@, orig.subrange(0, k as int)) == Ok::<Seq<Tag>, PatchError>(movie.tags@),
        decreases rest@.len(),
    {
        let m = rest.remove(0);
        proof {
            assert(orig.subrange(0, k + 1).drop_last() =~= orig.subrange(0, k as int));
            assert(orig.subrange(0, k + 1).last() == m);
        }
        let ghost before = movie.tags@;
        let res = apply_tag_modification(movie, m);
        if let Err(e) = res {
            proof {
                assert(patch_one(before, m) == Err::<Seq<Tag>, PatchError>(e));
                assert(patch_all(old(movie).tags@, orig.subrange(0, k + 1)) == Err::<Seq<Tag>, PatchError>(e));
                lemma_patch_all_stops(old(movie).tags@, orig, k as int + 1);
            }
            return Err(e);
        }
        proof {
            assert(patch_one(before, m) == Ok::<Seq<Tag>, PatchError>(movie.tags@));
        }
        k += 1;
        proof {
            assert(rest@ =~= orig.subrange(k as int, orig.len() as int));
        }
    }
    proof {
        assert(orig.subrange(0, k as int) =~= orig);
    }
    Ok(())
}

/// Once a prefix of the modifications faults, the whole list reports that fault.
proof fn lemma_patch_all_stops(tags: Seq<Tag>, mods: Seq<TagModification>, n: int)
    requires
        0 <= n <= mods.len(),
        patch_all(tags, mods.subrange(0, n)) is Err,
    ensures
        patch_all(tags, mods) == patch_all(tags, mods.subrange(0, n)),
    decreases mods.len() - n,
{
    if n == mods.len() {
        assert(mods.subrange(0, n) =~= mods);
    } else {
        assert(mods.subrange(0, n + 1).drop_last() =~= mods.subrange(0, n));
        lemma_patch_all_stops(tags, mods, n + 1);
    }
}

/// A shape patch that overrides only the bounds changes exactly the bounds
/// of the shape definition: its records and styles stay as they were.
pub proof fn lemma_bounds_only_patch(d: DefineShape, s: ShapeUpdate, b: Rect)
    requires
        s.shape is Absent,
        s.bounds == Field::Given(b),
        s.records is Absent,
        s.styles is Absent,
        s.fill_styles is Absent,
        s.line_styles is Absent,
    ensures
        updated_shape(d, s) == (DefineShape { bounds: b, ..d }),
{
}

} // verus!
