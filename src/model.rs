//! The document model: a movie as a header and an ordered list of tags.
//!
//! Parts of a tag that no component of the engine reads are carried as their
//! JSON encoding (the serde form of the `swf-types` crate), so that a decoded
//! movie can be rebuilt without loss.
use vstd::prelude::*;

verus! {

/// A coordinate pair in twips (twenty per pixel).
#[derive(Clone, Copy, Debug, PartialEq, Eq, Structural)]
pub struct Vector2D {
    pub x: i32,
    pub y: i32,
}

/// An axis-aligned rectangle in twips.
#[derive(Clone, Copy, Debug, PartialEq, Eq, Structural)]
pub struct Rect {
    pub x_min: i32,
    pub x_max: i32,
    pub y_min: i32,
    pub y_max: i32,
}

/// A straight (non-premultiplied) RGBA colour.
#[derive(Clone, Copy, Debug, PartialEq, Eq, Structural)]
pub struct Rgba {
    pub r: u8,
    pub g: u8,
    pub b: u8,
    pub a: u8,
}

/// An opaque RGB colour.
#[derive(Clone, Copy, Debug, PartialEq, Eq, Structural)]
pub struct Rgb {
    pub r: u8,
    pub g: u8,
    pub b: u8,
}

/// A fill style: solid colours are modelled, every other kind (bitmap and
/// gradient fills) is carried as its JSON encoding.
#[derive(Clone, Debug, PartialEq)]
pub enum FillStyle {
    Solid(Rgba),
    Encoded(String),
}

/// Line-end style; `Butt` is the format's "no cap".
#[derive(Clone, Copy, Debug, PartialEq, Eq, Structural)]
pub enum CapStyle {
    Butt,
    Round,
    Square,
}

#[derive(Clone, Copy, Debug, PartialEq, Eq, Structural)]
pub enum JoinStyle {
    Bevel,
    Miter(u16),
    Round,
}

#[derive(Clone, Debug, PartialEq)]
pub struct LineStyle {
    /// Stroke width in twips.
    pub width: u16,
    pub start_cap: CapStyle,
    pub end_cap: CapStyle,
    pub join: JoinStyle,
    pub no_h_scale: bool,
    pub no_v_scale: bool,
    pub no_close: bool,
    pub pixel_hinting: bool,
    pub fill: FillStyle,
}

/// A style table: fill styles and line styles, referenced by 1-based index.
#[derive(Clone, Debug, PartialEq)]
pub struct ShapeStyles {
    pub fill: Vec<FillStyle>,
    pub line: Vec<LineStyle>,
}

/// Moves the pen and/or selects styles.
#[derive(Clone, Debug, PartialEq)]
pub struct StyleChange {
    /// Absolute pen position.
    pub move_to: Option<Vector2D>,
    pub left_fill: Option<usize>,
    pub right_fill: Option<usize>,
    pub line_style: Option<usize>,
    pub new_styles: Option<ShapeStyles>,
}

/// A straight edge, or a quadratic curve when `control_delta` is present;
/// both deltas are relative to the pen position before the edge.
#[derive(Clone, Copy, Debug, PartialEq, Eq, Structural)]
pub struct Edge {
    pub delta: Vector2D,
    pub control_delta: Option<Vector2D>,
}

#[derive(Clone, Debug, PartialEq)]
pub enum ShapeRecord {
    StyleChange(StyleChange),
    Edge(Edge),
}

#[derive(Clone, Debug, PartialEq)]
pub struct Shape {
    pub initial_styles: ShapeStyles,
    pub records: Vec<ShapeRecord>,
}

#[derive(Clone, Copy, Debug, PartialEq, Eq, Structural)]
pub enum ImageType {
    Jpeg,
    Gif,
    Png,
    SwfPartialJpeg,
    SwfJpeg3,
    SwfJpeg4,
    SwfLossless1,
    SwfLossless2,
}

#[derive(Clone, Copy, Debug, PartialEq, Eq, Structural)]
pub enum TextAlignment {
    Left,
    Right,
    Center,
    Justify,
}

#[derive(Clone, Debug, PartialEq)]
pub struct NamedId {
    pub id: u16,
    pub name: String,
}

#[derive(Clone, Debug, PartialEq)]
pub struct Scene {
    pub offset: u32,
    pub name: String,
}

#[derive(Clone, Debug, PartialEq)]
pub struct Label {
    pub frame: u32,
    pub name: String,
}

#[derive(Clone, Debug, PartialEq)]
pub struct AbcHeader {
    pub flags: u32,
    pub name: String,
}

#[derive(Clone, Debug, PartialEq)]
pub struct DefineShape {
    pub id: u16,
    pub bounds: Rect,
    pub edge_bounds: Option<Rect>,
    pub has_fill_winding: bool,
    pub has_non_scaling_strokes: bool,
    pub has_scaling_strokes: bool,
    pub shape: Shape,
}

#[derive(Debug, PartialEq)]
pub struct DefineSprite {
    pub id: u16,
    pub frame_count: usize,
    /// The sprite's own timeline.
    pub tags: Vec<Tag>,
}

#[derive(Clone, Debug, PartialEq)]
pub struct DefineDynamicText {
    pub id: u16,
    pub bounds: Rect,
    pub word_wrap: bool,
    pub multiline: bool,
    pub password: bool,
    pub readonly: bool,
    pub auto_size: bool,
    pub no_select: bool,
    pub border: bool,
    pub was_static: bool,
    pub html: bool,
    pub use_glyph_font: bool,
    pub font_id: Option<u16>,
    pub font_class: Option<String>,
    pub font_size: Option<u16>,
    pub color: Option<Rgba>,
    pub max_length: Option<usize>,
    pub align: TextAlignment,
    pub margin_left: u16,
    pub margin_right: u16,
    pub indent: u16,
    pub leading: i16,
    pub variable_name: Option<String>,
    pub text: Option<String>,
}

#[derive(Clone, Debug, PartialEq)]
pub struct DefineBitmap {
    pub id: u16,
    pub width: u16,
    pub height: u16,
    pub media_type: ImageType,
    pub data: Vec<u8>,
}

/// A button definition; `records` holds the JSON encoding of its button
/// records and `encoded` that of the whole decoded tag.
#[derive(Clone, Debug, PartialEq)]
pub struct DefineButton {
    pub id: u16,
    pub records: String,
    pub encoded: String,
}

/// A static text definition; `records` holds the JSON encoding of its text
/// records and `encoded` that of the whole decoded tag.
#[derive(Clone, Debug, PartialEq)]
pub struct DefineText {
    pub id: u16,
    pub records: String,
    pub encoded: String,
}

/// A morph shape definition; `shape` holds the JSON encoding of the morph
/// shape and `encoded` that of the whole decoded tag.
#[derive(Clone, Debug, PartialEq)]
pub struct DefineMorphShape {
    pub id: u16,
    pub shape: String,
    pub encoded: String,
}

/// A placement on the timeline; `matrix` and `color_transform` hold the JSON
/// encodings of those optional fields and `encoded` that of the whole tag.
#[derive(Clone, Debug, PartialEq)]
pub struct PlaceObject {
    pub depth: u16,
    pub character_id: Option<u16>,
    pub matrix: String,
    pub color_transform: String,
    pub encoded: String,
}

#[derive(Clone, Debug, PartialEq)]
pub struct FileAttributes {
    pub use_network: bool,
    pub use_relative_urls: bool,
    pub no_cross_domain_caching: bool,
    pub use_as3: bool,
    pub has_metadata: bool,
    pub use_gpu: bool,
    pub use_direct_blit: bool,
}

/// One record of a movie's timeline.
#[derive(Debug, PartialEq)]
pub enum Tag {
    DefineShape(DefineShape),
    DefineSprite(DefineSprite),
    DefineDynamicText(DefineDynamicText),
    DefineText(DefineText),
    DefineButton(DefineButton),
    DefineBitmap(DefineBitmap),
    DefineMorphShape(DefineMorphShape),
    DefineBinaryData { id: u16, data: Vec<u8> },
    DefineButtonColorTransform { button_id: u16, transform: String },
    DefineSceneAndFrameLabelData { scenes: Vec<Scene>, labels: Vec<Label> },
    DoAbc { header: Option<AbcHeader>, data: Vec<u8> },
    DoAction { actions: Vec<u8> },
    FileAttributes(FileAttributes),
    FrameLabel { name: String, is_anchor: bool },
    PlaceObject(PlaceObject),
    RemoveObject { character_id: Option<u16>, depth: u16 },
    SetBackgroundColor { color: Rgb },
    SymbolClass { symbols: Vec<NamedId> },
    /// Any other tag, as its JSON encoding, with the character id it
    /// defines when it is a definition (fonts, sounds, video streams).
    Encoded { defines: Option<u16>, json: String },
}

#[derive(Clone, Copy, Debug, PartialEq, Eq, Structural)]
pub struct Header {
    pub swf_version: u8,
    /// Stage bounds in twips.
    pub frame_size: Rect,
    /// Frames per second as an unsigned 8.8 fixed-point value.
    pub frame_rate: u16,
    pub frame_count: u16,
}

/// A decoded movie.
#[derive(Debug, PartialEq)]
pub struct Movie {
    pub header: Header,
    pub tags: Vec<Tag>,
}

/// The character id that a definition tag introduces, if the tag is one.
pub open spec fn defined_id(t: Tag) -> Option<u16> {
    match t {
        Tag::DefineShape(s) => Some(s.id),
        Tag::DefineSprite(s) => Some(s.id),
        Tag::DefineDynamicText(s) => Some(s.id),
        Tag::DefineText(s) => Some(s.id),
        Tag::DefineButton(s) => Some(s.id),
        Tag::DefineBitmap(s) => Some(s.id),
        Tag::DefineMorphShape(s) => Some(s.id),
        Tag::DefineBinaryData { id, .. } => Some(id),
        Tag::Encoded { defines, .. } => defines,
        _ => None,
    }
}

/// Executable form of `defined_id`.
pub fn tag_defined_id(t: &Tag) -> (r: Option<u16>)
    ensures
        r == defined_id(*t),
{
    match t {
        Tag::DefineShape(s) => Some(s.id),
        Tag::DefineSprite(s) => Some(s.id),
        Tag::DefineDynamicText(s) => Some(s.id),
        Tag::DefineText(s) => Some(s.id),
        Tag::DefineButton(s) => Some(s.id),
        Tag::DefineBitmap(s) => Some(s.id),
        Tag::DefineMorphShape(s) => Some(s.id),
        Tag::DefineBinaryData { id, .. } => Some(*id),
        Tag::Encoded { defines, .. } => *defines,
        _ => None,
    }
}

} // verus!
