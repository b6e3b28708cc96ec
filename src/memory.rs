use vstd::prelude::*;

use crate::settings::Rgba;

verus! {

/// The index that ends the current primitive (primitive restart).
pub const PRIMITIVE_RESTART: u32 = 0xFFFF_FFFF;

/// How a vertex's colour is shaded: the two arms of a point's cross are drawn
/// a little darker and a little lighter so that the cross shows.
#[derive(Clone, Copy, Debug, PartialEq, Eq, Structural)]
pub enum Shade {
    Darker,
    Plain,
    Lighter,
}

/// One vertex as handed to the renderer: world position and colour.
#[derive(Clone, Copy, Debug, PartialEq, Eq, Structural)]
pub struct VertexRecord {
    pub x: i128,
    pub y: i128,
    pub color: Rgba,
    pub shade: Shade,
}

/// The vertex records of a drawing pass, refilled in place each frame.
#[derive(Debug)]
pub struct VertexBuffer {
    pub buffer: Vec<VertexRecord>,
}

impl VertexBuffer {
    /// An empty buffer.
    pub fn new() -> (r: VertexBuffer)
        ensures
            r.buffer@.len() == 0,
    {
        VertexBuffer { buffer: Vec::new() }
    }

    /// The records, for handing to the renderer.
    pub fn get_ptr(&self) -> (r: &[VertexRecord])
        ensures
            r@ == self.buffer@,
    {
        self.buffer.as_slice()
    }

    /// The number of records.
    pub fn get_len(&self) -> (r: usize)
        ensures
            r == self.buffer@.len(),
    {
        self.buffer.len()
    }
}

/// The indices of a drawing pass, with `PRIMITIVE_RESTART` between
/// primitives.
#[derive(Debug)]
pub struct IndexBuffer {
    pub buffer: Vec<u32>,
}

impl IndexBuffer {
    /// An empty buffer.
    pub fn new() -> (r: IndexBuffer)
        ensures
            r.buffer@.len() == 0,
    {
        IndexBuffer { buffer: Vec::new() }
    }

    /// The indices, for handing to the renderer.
    pub fn get_ptr(&self) -> (r: &[u32])
        ensures
            r@ == self.buffer@,
    {
        self.buffer.as_slice()
    }

    /// The number of indices.
    pub fn get_len(&self) -> (r: usize)
        ensures
            r == self.buffer@.len(),
    {
        self.buffer.len()
    }
}

} // verus!
