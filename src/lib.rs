//! An in-memory 2D pattern model: entities grouped into blocks, blocks placed
//! by inserts, cached bounding boxes, selection state, transforms, and the
//! flattening of a scene into vertex and index buffers for a renderer.
//!
//! Coordinates are fixed-point integers; the caller picks the unit.
pub mod block;
pub mod bounding_box;
pub mod color;
pub mod document;
pub mod entity;
pub mod handle;
pub mod memory;
pub mod order;
pub mod pattern;
pub mod settings;
pub mod text;
pub mod vector;

pub use block::Block;
pub use bounding_box::{BoundingBox, WorldBox};
pub use color::hex_to_rgba;
pub use document::{BlockRecord, Document, EntityRecord, InsertRecord};
pub use entity::{Entity, EntityTypes, HighlightTransform};
pub use handle::Handle;
pub use memory::{IndexBuffer, Shade, VertexBuffer, VertexRecord, PRIMITIVE_RESTART};
pub use pattern::{Insert, Pattern};
pub use settings::{LayerColor, Rgba, Settings};
pub use text::{parse_entity_index, view_as_block_key};
pub use vector::{Rotation, Scale, Vertex};
