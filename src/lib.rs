//! A modification engine for SWF movies: shape compilation from SVG paths,
//! bounds computation, character-id lifecycle, tag patching, transparency
//! conversion and script-tag insertion, over a document model of its own.
pub mod archive;
pub mod batch;
pub mod bounds;
pub mod config;
pub mod geometry;
pub mod lifecycle;
pub mod model;
pub mod patch;
pub mod pipeline;
pub mod script;
pub mod svg;
pub mod text;
pub mod transparency;
