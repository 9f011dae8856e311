//! Patch and batch descriptions, as plain values. Reading them from JSON
//! happens at the edge of the library.
use vstd::prelude::*;
use crate::lifecycle::RemoveElements;
use crate::model::{DefineButton, Rect, Rgba, Shape, Tag, TextAlignment};
use crate::patch::TagModification;

verus! {

/// An inclusive range along one axis, in twips.
#[derive(Clone, Copy, Debug, PartialEq, Eq, Structural)]
pub struct BoundRange {
    pub min: i32,
    pub max: i32,
}

/// A rectangle given as one range per axis.
#[derive(Clone, Copy, Debug, PartialEq, Eq, Structural)]
pub struct Bounds {
    pub x: BoundRange,
    pub y: BoundRange,
}

pub open spec fn rect_of(b: Bounds) -> Rect {
    Rect { x_min: b.x.min, x_max: b.x.max, y_min: b.y.min, y_max: b.y.max }
}

pub fn bounds_to_rect(b: &Bounds) -> (r: Rect)
    ensures
        r == rect_of(*b),
{
    Rect { x_min: b.x.min, x_max: b.x.max, y_min: b.y.min, y_max: b.y.max }
}

/// An SVG source and the shape ids it replaces.
#[derive(Debug)]
pub struct ShapeSource {
    pub source: String,
    pub shapes: Vec<u16>,
}

/// A new shape to add from an SVG source, with an optional id and bounds.
#[derive(Debug)]
pub struct NewShape {
    pub source: String,
    pub id: Option<u16>,
    pub bounds: Option<Bounds>,
}

/// A new shape whose source has been compiled.
#[derive(Debug)]
pub struct CompiledShape {
    pub id: Option<u16>,
    pub bounds: Option<Bounds>,
    pub shapes: Vec<Shape>,
}

#[derive(Debug)]
pub struct NewSprite {
    pub id: Option<u16>,
    pub frame_count: u16,
    pub tags: Vec<Tag>,
}

#[derive(Debug)]
pub struct NewText {
    pub id: Option<u16>,
    pub text: String,
    pub bounds: Bounds,
    pub font_class: String,
    pub font_size: u16,
    pub color: Option<Rgba>,
    pub word_wrap: bool,
    pub multiline: bool,
    pub readonly: bool,
    pub no_select: bool,
    pub html: bool,
    pub use_outlines: bool,
    pub align: TextAlignment,
    pub margin_left: u16,
    pub margin_right: u16,
    pub indent: u16,
    pub leading: i16,
}

/// A new PNG bitmap.
#[derive(Debug)]
pub struct NewBitmap {
    pub id: Option<u16>,
    pub width: u16,
    pub height: u16,
    pub data: Vec<u8>,
}

/// Button definitions to add as they are.
#[derive(Debug)]
pub struct NewButton {
    pub states: Vec<DefineButton>,
}

#[derive(Debug)]
pub struct NewScene {
    pub name: String,
    pub offset: u32,
}

/// Elements to add; shapes come compiled.
#[derive(Debug)]
pub struct NewElements {
    pub shapes: Option<Vec<CompiledShape>>,
    pub sprites: Option<Vec<NewSprite>>,
    pub texts: Option<Vec<NewText>>,
    pub bitmaps: Option<Vec<NewBitmap>>,
    pub buttons: Option<Vec<NewButton>>,
    pub scenes: Option<Vec<NewScene>>,
}

/// How compiled script code enters the movie.
#[derive(Clone, Copy, Debug, PartialEq, Eq, Structural)]
pub enum ActionScriptInsertMode {
    /// Append a new script tag.
    Add,
    /// Replace the script tag holding the class, or the first one.
    Replace,
}

/// Binds a character id to a class name.
#[derive(Debug)]
pub struct SymbolBinding {
    pub symbol_id: u16,
    pub class_name: String,
}

#[derive(Debug)]
pub struct ActionScriptPatch {
    pub source_file: String,
    pub insert_mode: ActionScriptInsertMode,
    pub class_name: Option<String>,
    pub package_name: Option<String>,
    pub symbol_bindings: Option<Vec<SymbolBinding>>,
}

/// The movie-level part of a patch: stage bounds, tag modifications, and
/// elements to add or remove.
#[derive(Debug)]
pub struct SwfModification {
    pub bounds: Option<Bounds>,
    pub modifications: Vec<TagModification>,
    pub new_elements: Option<NewElements>,
    pub remove_elements: Option<RemoveElements>,
}

/// A whole patch.
#[derive(Debug)]
pub struct ModificationConfig {
    pub file: Option<Vec<ShapeSource>>,
    pub transparent: Option<Vec<u16>>,
    pub actionscript: Option<Vec<ActionScriptPatch>>,
    pub swf: SwfModification,
    pub new_elements: Option<NewElements>,
    pub remove_elements: Option<RemoveElements>,
}

/// Which mod name maps to which movie file.
#[derive(Debug)]
pub struct SwfMapping {
    pub mod_name: String,
    pub swf_path: String,
}

/// A batch run: the batch configuration file, where to write, and how to
/// find the movies.
#[derive(Debug)]
pub struct BatchProcessConfig {
    pub config_file: String,
    pub output_directory: String,
    pub ba2_path: Option<String>,
    pub swf_mappings: Vec<SwfMapping>,
}

#[derive(Debug)]
pub struct FileConfig {
    pub path: String,
    pub config: String,
}

/// One mod of a batch: files inside an archive, or a single movie with a
/// patch configuration.
#[derive(Debug)]
pub struct ModConfig {
    pub ba2: Option<bool>,
    pub name: String,
    pub files: Option<Vec<FileConfig>>,
    pub config: Option<String>,
}

#[derive(Debug)]
pub struct BatchConfiguration {
    pub mods: Vec<ModConfig>,
}

/// Files for creating a binary diff.
#[derive(Debug)]
pub struct CreatePatchArgs {
    pub original_file_path: String,
    pub edited_file_path: String,
    pub output_dir: String,
    pub original_file_name: String,
}

/// Files for applying a binary diff.
#[derive(Debug)]
pub struct ApplyPatchArgs {
    pub file_to_patch_path: String,
    pub patch_file_path: String,
    pub output_dir: String,
    pub file_to_patch_name: String,
}

} // verus!
