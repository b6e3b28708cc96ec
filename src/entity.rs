use vstd::prelude::*;

use crate::bounding_box::{
    from_array, lemma_rotate_fits, lemma_scale_bounds, lemma_shift_bounds,
    offset_bbox, scale_bbox, BoundingBox,
};
use crate::memory::{IndexBuffer, Shade, VertexBuffer, VertexRecord, PRIMITIVE_RESTART};
use crate::settings::{layer_color, Rgba, Settings};
use crate::vector::{
    bounded, rotate_coords, scale_coord, scaled_coord, small, Rotation, Scale, Vertex,
};

verus! {

/// The kinds of entity. Only points, lines, polylines and text are stored as
/// entities; a placement of a block is an `Insert`.
#[derive(Clone, Copy, Debug, PartialEq, Eq, Structural)]
pub enum EntityTypes {
    Point,
    Line,
    Polyline,
    Text,
    Insert,
}

/// The transform of a gesture in progress, drawn on highlighted entities only:
/// a move, then a scale about `anchor` or, if the scale is the identity, a
/// rotation `(rot_offset_x, rot_offset_y) + v * rotation`.
#[derive(Clone, Copy, Debug, PartialEq, Eq, Structural)]
pub struct HighlightTransform {
    pub offset: Vertex,
    pub scale: Scale,
    pub anchor: Vertex,
    pub rotation: Rotation,
    pub rot_offset_x: i128,
    pub rot_offset_y: i128,
}

impl HighlightTransform {
    pub open spec fn wf(self) -> bool {
        &&& self.scale.wf()
        &&& self.rotation.wf()
        &&& small(self.rot_offset_x as int)
        &&& small(self.rot_offset_y as int)
    }
}

/// Where a vertex of a block is drawn: moved by the block's placement and,
/// when highlighted, by the gesture in progress.
pub open spec fn world_point(
    v: Vertex,
    placement: Vertex,
    highlighted: bool,
    t: HighlightTransform,
) -> (int, int) {
    let px = v.x + placement.x;
    let py = v.y + placement.y;
    if !highlighted {
        (px, py)
    } else {
        let qx = px + t.offset.x;
        let qy = py + t.offset.y;
        if !t.scale.is_identity() {
            (
                scaled_coord(qx, t.anchor.x as int, t.scale.x as int, t.scale.den as int),
                scaled_coord(qy, t.anchor.y as int, t.scale.y as int, t.scale.den as int),
            )
        } else if !t.rotation.is_identity() {
            (t.rot_offset_x + t.rotation.apply_x(qx, qy), t.rot_offset_y + t.rotation.apply_y(qx, qy))
        } else {
            (qx, qy)
        }
    }
}

/// Where a vertex is drawn; see `world_point`.
pub fn world_coords(v: &Vertex, placement: &Vertex, highlighted: bool, t: &HighlightTransform) -> (r: (
    i128,
    i128,
))
    requires
        t.wf(),
    ensures
        r.0 == world_point(*v, *placement, highlighted, *t).0,
        r.1 == world_point(*v, *placement, highlighted, *t).1,
        bounded(r.0 as int),
        bounded(r.1 as int),
{
    let px = v.x as i128 + placement.x as i128;
    let py = v.y as i128 + placement.y as i128;
    assert(bounded(px as int) && bounded(py as int) && small(px as int) && small(py as int));
    if !highlighted {
        return (px, py);
    }
    let qx = px + t.offset.x as i128;
    let qy = py + t.offset.y as i128;
    assert(bounded(qx as int) && bounded(qy as int) && small(qx as int) && small(qy as int));
    if !(t.scale.x == t.scale.den && t.scale.y == t.scale.den) {
        (
            scale_coord(qx, t.anchor.x as i128, t.scale.x, t.scale.den),
            scale_coord(qy, t.anchor.y as i128, t.scale.y, t.scale.den),
        )
    } else if !(t.rotation.m00 == t.rotation.den && t.rotation.m01 == 0 && t.rotation.m10 == 0
        && t.rotation.m11 == t.rotation.den) {
        let (rx, ry) = rotate_coords(&t.rotation, qx, qy);
        (t.rot_offset_x + rx, t.rot_offset_y + ry)
    } else {
        (qx, qy)
    }
}

pub open spec fn record(p: (int, int), color: Rgba, shade: Shade) -> VertexRecord {
    VertexRecord { x: p.0 as i128, y: p.1 as i128, color, shade }
}

/// A single drawable primitive with its cached bounding box.
#[derive(Debug)]
pub struct Entity {
    pub entity_type: EntityTypes,
    pub layer: i32,
    pub shape: bool,
    pub vertices: Vec<Vertex>,
    pub text_height: i64,
    /// The 32 bytes of the id, hyphens removed.
    pub entity_index: Vec<u8>,
    pub text: String,
    pub bounding_box: BoundingBox,
    pub highlighted: bool,
}

impl Entity {
    /// At least one vertex, and the cached box bounds the vertices.
    pub open spec fn wf(&self) -> bool {
        self.vertices@.len() > 0 && self.bounding_box.bounds(self.vertices@)
    }

    /// Everything but the geometry and the highlight is the same.
    pub open spec fn same_record(&self, o: &Entity) -> bool {
        &&& self.entity_type == o.entity_type
        &&& self.layer == o.layer
        &&& self.shape == o.shape
        &&& self.text_height == o.text_height
        &&& self.entity_index@ == o.entity_index@
        &&& self.text@ == o.text@
    }

    /// The colour the entity is drawn in: the highlight colour when
    /// highlighted, else its layer's colour if one is set, else `fallback`.
    pub open spec fn color_spec(&self, settings: &Settings, fallback: Rgba) -> Rgba {
        if self.highlighted {
            settings.highlight_color
        } else {
            match layer_color(settings.layer_colors@, self.layer) {
                Some(c) => c,
                None => fallback,
            }
        }
    }

    /// How many vertex records, and index values before the sentinels, the
    /// entity emits: a single vertex becomes a cross of four.
    pub open spec fn draw_count(&self) -> nat {
        if self.vertices@.len() == 1 {
            4
        } else {
            self.vertices@.len()
        }
    }

    pub open spec fn draw_vertices(
        &self,
        color: Rgba,
        placement: Vertex,
        t: HighlightTransform,
        cross: int,
    ) -> Seq<VertexRecord> {
        if self.vertices@.len() == 1 {
            let p = world_point(self.vertices@[0], placement, self.highlighted, t);
            seq![
                record((p.0 - cross, p.1 - cross), color, Shade::Darker),
                record((p.0 + cross, p.1 + cross), color, Shade::Lighter),
                record((p.0 + cross, p.1 - cross), color, Shade::Plain),
                record((p.0 - cross, p.1 + cross), color, Shade::Plain),
            ]
        } else {
            self.vertices@.map_values(
                |v: Vertex| record(world_point(v, placement, self.highlighted, t), color, Shade::Plain),
            )
        }
    }

    /// The indices emitted from `last` on: a cross is two segments; otherwise
    /// one index per vertex, one more back to the first if closed, and the
    /// sentinel.
    pub open spec fn draw_indices(&self, last: int) -> Seq<u32> {
        if self.vertices@.len() == 1 {
            seq![
                last as u32,
                (last + 1) as u32,
                PRIMITIVE_RESTART,
                (last + 2) as u32,
                (last + 3) as u32,
                PRIMITIVE_RESTART,
            ]
        } else {
            Seq::new(self.vertices@.len(), |i: int| (last + i) as u32) + (if self.shape {
                seq![last as u32]
            } else {
                Seq::<u32>::empty()
            }) + seq![PRIMITIVE_RESTART]
        }
    }

    /// A new entity, not highlighted, with its box computed.
    pub fn new(
        entity_type: EntityTypes,
        layer: i32,
        shape: bool,
        vertices: Vec<Vertex>,
        text_height: i64,
        entity_index: Vec<u8>,
        text: String,
    ) -> (r: Entity)
        requires
            vertices@.len() > 0,
        ensures
            r.wf(),
            r.entity_type == entity_type,
            r.layer == layer,
            r.shape == shape,
            r.vertices@ == vertices@,
            r.text_height == text_height,
            r.entity_index@ == entity_index@,
            r.text@ == text@,
            !r.highlighted,
    {
        let bounding_box = from_array(&vertices);
        Entity {
            entity_type,
            layer,
            shape,
            vertices,
            text_height,
            entity_index,
            text,
            bounding_box,
            highlighted: false,
        }
    }

    pub fn highlight(&mut self)
        ensures
            final(self).highlighted,
            final(self).same_record(old(self)),
            final(self).vertices@ == old(self).vertices@,
            final(self).bounding_box == old(self).bounding_box,
    {
        self.highlighted = true;
    }

    pub fn remove_highlight(&mut self)
        ensures
            !final(self).highlighted,
            final(self).same_record(old(self)),
            final(self).vertices@ == old(self).vertices@,
            final(self).bounding_box == old(self).bounding_box,
    {
        self.highlighted = false;
    }

    /// The colour to draw in; the order of precedence is fixed.
    pub fn get_color(&self, settings: &Settings, default_color: Rgba) -> (r: Rgba)
        ensures
            r == self.color_spec(settings, default_color),
    {
        if self.highlighted {
            settings.highlight_color
        } else {
            match settings.get_layer_color(self.layer) {
                Some(c) => c,
                None => default_color,
            }
        }
    }

    /// Appends the entity's vertex records and indices to the buffers,
    /// numbering its vertices from `*last_index` on, and advances the counter.
    pub fn update_draw_sequence(
        &self,
        color: Rgba,
        placement: &Vertex,
        t: &HighlightTransform,
        cross_size: i64,
        last_index: &mut u32,
        vertex_buffer: &mut VertexBuffer,
        index_buffer: &mut IndexBuffer,
    )
        requires
            self.wf(),
            t.wf(),
            *old(last_index) as int + self.draw_count() < PRIMITIVE_RESTART,
        ensures
            final(vertex_buffer).buffer@ == old(vertex_buffer).buffer@ + self.draw_vertices(
                color,
                *placement,
                *t,
                cross_size as int,
            ),
            final(index_buffer).buffer@ == old(index_buffer).buffer@ + self.draw_indices(
                *old(last_index) as int,
            ),
            *final(last_index) == *old(last_index) + self.draw_count(),
    {
        let n = self.vertices.len();
        let start = *last_index;
        if n == 1 {
            let (x, y) = world_coords(&self.vertices[0], placement, self.highlighted, t);
            let c = cross_size as i128;
            vertex_buffer.buffer.push(VertexRecord { x: x - c, y: y - c, color, shade: Shade::Darker });
            vertex_buffer.buffer.push(VertexRecord { x: x + c, y: y + c, color, shade: Shade::Lighter });
            vertex_buffer.buffer.push(VertexRecord { x: x + c, y: y - c, color, shade: Shade::Plain });
            vertex_buffer.buffer.push(VertexRecord { x: x - c, y: y + c, color, shade: Shade::Plain });
            index_buffer.buffer.push(start);
            index_buffer.buffer.push(start + 1);
            index_buffer.buffer.push(PRIMITIVE_RESTART);
            index_buffer.buffer.push(start + 2);
            index_buffer.buffer.push(start + 3);
            index_buffer.buffer.push(PRIMITIVE_RESTART);
            *last_index = start + 4;
            proof {
                assert(vertex_buffer.buffer@ =~= old(vertex_buffer).buffer@ + self.draw_vertices(
                    color,
                    *placement,
                    *t,
                    cross_size as int,
                ));
                assert(index_buffer.buffer@ =~= old(index_buffer).buffer@ + self.draw_indices(
                    start as int,
                ));
            }
            return;
        }
        let ghost vb0 = vertex_buffer.buffer@;
        let ghost ib0 = index_buffer.buffer@;
        let ghost recs = self.draw_vertices(color, *placement, *t, cross_size as int);
        let mut i: usize = 0;
        while i < n
            invariant
                n == self.vertices@.len(),
                n > 1,
                0 <= i <= n,
                t.wf(),
                start as int + n < PRIMITIVE_RESTART,
                *last_index == start + i,
                recs == self.draw_vertices(color, *placement, *t, cross_size as int),
                vertex_buffer.buffer@ == vb0 + recs.subrange(0, i as int),
                index_buffer.buffer@ == ib0 + Seq::new(i as nat, |j: int| (start + j) as u32),
            decreases n - i,
        {
            let (x, y) = world_coords(&self.vertices[i], placement, self.highlighted, t);
            vertex_buffer.buffer.push(VertexRecord { x, y, color, shade: Shade::Plain });
            index_buffer.buffer.push(*last_index);
            *last_index = *last_index + 1;
            proof {
                assert(recs.subrange(0, i as int + 1) =~= recs.subrange(0, i as int).push(recs[i as int]));
                assert(index_buffer.buffer@ =~= ib0 + Seq::new((i + 1) as nat, |j: int| (start + j) as u32));
            }
            i = i + 1;
        }
        if self.shape {
            index_buffer.buffer.push(start);
        }
        index_buffer.buffer.push(PRIMITIVE_RESTART);
        proof {
            assert(recs.subrange(0, n as int) =~= recs);
            assert(index_buffer.buffer@ =~= old(index_buffer).buffer@ + self.draw_indices(
                start as int,
            ));
        }
    }

    /// Moves every vertex by `offset`, and the cached box with them.
    pub fn offset_vertices(&mut self, offset: &Vertex)
        requires
            old(self).wf(),
            old(self).bounding_box.can_shift(*offset),
        ensures
            final(self).wf(),
            final(self).vertices@ == old(self).vertices@.map_values(|v: Vertex| v.plus(*offset)),
            final(self).bounding_box == old(self).bounding_box.shifted(*offset),
            final(self).same_record(old(self)),
            final(self).highlighted == old(self).highlighted,
    {
        proof {
            lemma_shift_bounds(self.bounding_box, self.vertices@, *offset);
        }
        let n = self.vertices.len();
        let mut moved: Vec<Vertex> = Vec::new();
        let mut i: usize = 0;
        while i < n
            invariant
                n == self.vertices@.len(),
                0 <= i <= n,
                forall|j: int| 0 <= j < n ==> (#[trigger] self.vertices@[j]).can_add(*offset),
                moved@ == self.vertices@.subrange(0, i as int).map_values(
                    |v: Vertex| v.plus(*offset),
                ),
            decreases n - i,
        {
            let v = self.vertices[i];
            proof {
                assert(self.vertices@[i as int].can_add(*offset));
            }
            moved.push(Vertex { x: v.x + offset.x, y: v.y + offset.y });
            proof {
                assert(self.vertices@.subrange(0, i as int + 1) =~= self.vertices@.subrange(
                    0,
                    i as int,
                ).push(v));
                assert(moved@ =~= self.vertices@.subrange(0, i as int + 1).map_values(
                    |v: Vertex| v.plus(*offset),
                ));
            }
            i = i + 1;
        }
        proof {
            assert(self.vertices@.subrange(0, n as int) =~= self.vertices@);
        }
        self.bounding_box = offset_bbox(&self.bounding_box, offset);
        self.vertices = moved;
    }

    /// Maps every vertex by `(v - anchor) * scale + anchor`; the cached box
    /// follows by the same map.
    pub fn scale_vertices(&mut self, scale: &Scale, anchor: &Vertex)
        requires
            old(self).wf(),
            scale.wf(),
            old(self).bounding_box.can_scale(*scale, *anchor),
        ensures
            final(self).wf(),
            final(self).vertices@ == old(self).vertices@.map_values(
                |v: Vertex| v.scaled(*scale, *anchor),
            ),
            final(self).bounding_box == old(self).bounding_box.scaled(*scale, *anchor),
            final(self).same_record(old(self)),
            final(self).highlighted == old(self).highlighted,
    {
        proof {
            lemma_scale_bounds(self.bounding_box, self.vertices@, *scale, *anchor);
        }
        let n = self.vertices.len();
        let mut moved: Vec<Vertex> = Vec::new();
        let mut i: usize = 0;
        while i < n
            invariant
                n == self.vertices@.len(),
                0 <= i <= n,
                scale.wf(),
                forall|j: int| 0 <= j < n ==> (#[trigger] self.vertices@[j]).can_scale(*scale, *anchor),
                moved@ == self.vertices@.subrange(0, i as int).map_values(
                    |v: Vertex| v.scaled(*scale, *anchor),
                ),
            decreases n - i,
        {
            let v = self.vertices[i];
            proof {
                assert(self.vertices@[i as int].can_scale(*scale, *anchor));
            }
            let x = scale_coord(v.x as i128, anchor.x as i128, scale.x, scale.den) as i64;
            let y = scale_coord(v.y as i128, anchor.y as i128, scale.y, scale.den) as i64;
            moved.push(Vertex { x, y });
            proof {
                assert(self.vertices@.subrange(0, i as int + 1) =~= self.vertices@.subrange(
                    0,
                    i as int,
                ).push(v));
                assert(moved@ =~= self.vertices@.subrange(0, i as int + 1).map_values(
                    |v: Vertex| v.scaled(*scale, *anchor),
                ));
            }
            i = i + 1;
        }
        proof {
            assert(self.vertices@.subrange(0, n as int) =~= self.vertices@);
        }
        self.bounding_box = scale_bbox(&self.bounding_box, scale, anchor);
        self.vertices = moved;
    }

    /// Maps every vertex by `rot_offset + v * rotation` and computes the box
    /// again from the new vertices: a rotation changes which are extreme.
    pub fn rotate_vertices(&mut self, rotation: &Rotation, rot_offset: &Vertex)
        requires
            old(self).wf(),
            rotation.wf(),
            old(self).bounding_box.can_rotate(*rotation, *rot_offset),
        ensures
            final(self).wf(),
            final(self).vertices@ == old(self).vertices@.map_values(
                |v: Vertex| v.rotated(*rotation, *rot_offset),
            ),
            final(self).same_record(old(self)),
            final(self).highlighted == old(self).highlighted,
    {
        proof {
            lemma_rotate_fits(self.bounding_box, self.vertices@, *rotation, *rot_offset);
        }
        let n = self.vertices.len();
        let mut moved: Vec<Vertex> = Vec::new();
        let mut i: usize = 0;
        while i < n
            invariant
                n == self.vertices@.len(),
                0 <= i <= n,
                rotation.wf(),
                forall|j: int|
                    0 <= j < n ==> (#[trigger] self.vertices@[j]).can_rotate(*rotation, *rot_offset),
                moved@ == self.vertices@.subrange(0, i as int).map_values(
                    |v: Vertex| v.rotated(*rotation, *rot_offset),
                ),
            decreases n - i,
        {
            let v = self.vertices[i];
            proof {
                assert(self.vertices@[i as int].can_rotate(*rotation, *rot_offset));
            }
            let (rx, ry) = rotate_coords(rotation, v.x as i128, v.y as i128);
            let x = (rot_offset.x as i128 + rx) as i64;
            let y = (rot_offset.y as i128 + ry) as i64;
            moved.push(Vertex { x, y });
            proof {
                assert(self.vertices@.subrange(0, i as int + 1) =~= self.vertices@.subrange(
                    0,
                    i as int,
                ).push(v));
                assert(moved@ =~= self.vertices@.subrange(0, i as int + 1).map_values(
                    |v: Vertex| v.rotated(*rotation, *rot_offset),
                ));
            }
            i = i + 1;
        }
        proof {
            assert(self.vertices@.subrange(0, n as int) =~= self.vertices@);
        }
        self.bounding_box = from_array(&moved);
        self.vertices = moved;
    }
}

/// A polyline of `n >= 2` vertices emits `n` indices, then one back to its
/// first vertex if it is closed, then one sentinel: `n + 2` slots when closed,
/// `n + 1` when open. (A single vertex is drawn as a cross instead.)
pub proof fn law_polyline_index_slots(e: &Entity, last: int)
    requires
        e.vertices@.len() >= 2,
    ensures
        e.draw_indices(last).len() == e.vertices@.len() + (if e.shape { 2int } else { 1int }),
        forall|i: int| 0 <= i < e.vertices@.len() ==> #[trigger] e.draw_indices(last)[i] == (last + i) as u32,
        e.shape ==> e.draw_indices(last)[e.vertices@.len() as int] == last as u32,
        e.draw_indices(last).last() == PRIMITIVE_RESTART,
{
}

/// An entity with a single vertex (a point or a text anchor) emits four
/// vertex records and six index slots, two of them sentinels, wherever the
/// vertex is.
pub proof fn law_single_vertex_cross(
    e: &Entity,
    color: Rgba,
    placement: Vertex,
    t: HighlightTransform,
    cross: int,
    last: int,
)
    requires
        e.vertices@.len() == 1,
        0 <= last,
        last + 4 < PRIMITIVE_RESTART,
    ensures
        e.draw_vertices(color, placement, t, cross).len() == 4,
        e.draw_count() == 4,
        e.draw_indices(last).len() == 6,
        e.draw_indices(last)[2] == PRIMITIVE_RESTART,
        e.draw_indices(last)[5] == PRIMITIVE_RESTART,
        forall|i: int|
            0 <= i < 6 && i != 2 && i != 5 ==> #[trigger] e.draw_indices(last)[i] != PRIMITIVE_RESTART,
{
    assert forall|i: int|
        0 <= i < 6 && i != 2 && i != 5 implies #[trigger] e.draw_indices(last)[i] != PRIMITIVE_RESTART by {
        assert(i == 0 || i == 1 || i == 3 || i == 4);
    }
}

} // verus!
