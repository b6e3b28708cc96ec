use vstd::prelude::*;

use crate::bounding_box::{
    contains_point, intersect, lemma_bounds_ordered, lemma_inner_box_fits, union, BoundingBox,
};
use crate::entity::{Entity, EntityTypes, HighlightTransform};
use crate::memory::{IndexBuffer, VertexBuffer, VertexRecord, PRIMITIVE_RESTART};
use crate::settings::{layer_color, Rgba, Settings};
use crate::vector::{Rotation, Scale, Vertex};

verus! {

/// The smallest box holding every box of `boxes`; the zero box when empty.
pub open spec fn union_all(boxes: Seq<BoundingBox>) -> BoundingBox
    decreases boxes.len(),
{
    if boxes.len() == 0 {
        BoundingBox::zero()
    } else if boxes.len() == 1 {
        boxes[0]
    } else {
        union_all(boxes.drop_last()).joined(boxes.last())
    }
}

pub open spec fn entity_boxes(es: Seq<Entity>) -> Seq<BoundingBox> {
    es.map_values(|e: Entity| e.bounding_box)
}

/// `acc` followed by each layer of `ls` not seen before, in first-seen order.
pub open spec fn add_layers(acc: Seq<i32>, ls: Seq<i32>) -> Seq<i32>
    decreases ls.len(),
{
    if ls.len() == 0 {
        acc
    } else {
        let a = add_layers(acc, ls.drop_last());
        if a.contains(ls.last()) {
            a
        } else {
            a.push(ls.last())
        }
    }
}

/// A named group of entities with a local origin; its box is the union of
/// theirs.
#[derive(Debug)]
pub struct Block {
    pub name: String,
    pub centroid: Vertex,
    pub layer: i32,
    pub entities: Vec<Entity>,
    pub bounding_box: BoundingBox,
    pub highlighted: bool,
}

impl Block {
    pub open spec fn wf(&self) -> bool {
        &&& forall|i: int| 0 <= i < self.entities@.len() ==> (#[trigger] self.entities@[i]).wf()
        &&& self.bounding_box == union_all(entity_boxes(self.entities@))
    }

    /// The block's own layer, then each entity's.
    pub open spec fn layers(&self) -> Seq<i32> {
        seq![self.layer] + self.entities@.map_values(|e: Entity| e.layer)
    }

    /// The same name, layer and centroid.
    pub open spec fn same_header(&self, o: &Block) -> bool {
        &&& self.name@ == o.name@
        &&& self.layer == o.layer
        &&& self.centroid == o.centroid
    }

    /// An empty block.
    pub fn new(name: String, layer: i32, center: &Vertex) -> (r: Block)
        ensures
            r.wf(),
            r.name@ == name@,
            r.layer == layer,
            r.centroid == *center,
            r.entities@.len() == 0,
            r.bounding_box == BoundingBox::zero(),
            !r.highlighted,
    {
        Block {
            name,
            centroid: *center,
            layer,
            entities: Vec::new(),
            bounding_box: BoundingBox { min_x: 0, max_x: 0, min_y: 0, max_y: 0 },
            highlighted: false,
        }
    }

    /// Appends one entity and grows the box around it.
    fn push_entity(&mut self, e: Entity)
        requires
            old(self).wf(),
            e.wf(),
        ensures
            final(self).wf(),
            final(self).same_header(old(self)),
            final(self).highlighted == old(self).highlighted,
            final(self).entities@ == old(self).entities@.push(e),
    {
        let n = self.entities.len();
        let bb = e.bounding_box;
        proof {
            let es = self.entities@.push(e);
            assert(entity_boxes(es).drop_last() =~= entity_boxes(self.entities@));
        }
        if n == 0 {
            self.bounding_box = bb;
        } else {
            self.bounding_box = union(&self.bounding_box, &bb);
        }
        self.entities.push(e);
    }

    /// `self` is `before` with one more entity at the end, made of these
    /// fields and not highlighted.
    pub open spec fn added(
        &self,
        before: &Block,
        kind: EntityTypes,
        layer: i32,
        shape: bool,
        vertices: Seq<Vertex>,
        text_height: i64,
        id: Seq<u8>,
        text: Seq<char>,
    ) -> bool {
        let e = self.entities@.last();
        &&& self.wf()
        &&& self.same_header(before)
        &&& self.highlighted == before.highlighted
        &&& self.entities@.len() == before.entities@.len() + 1
        &&& self.entities@.drop_last() == before.entities@
        &&& e.entity_type == kind
        &&& e.layer == layer
        &&& e.shape == shape
        &&& e.vertices@ == vertices
        &&& e.text_height == text_height
        &&& e.entity_index@ == id
        &&& e.text@ == text
        &&& !e.highlighted
    }

    fn add_entity(
        &mut self,
        kind: EntityTypes,
        layer: i32,
        shape: bool,
        vertices: Vec<Vertex>,
        text_height: i64,
        entity_id: Vec<u8>,
        text: String,
    )
        requires
            old(self).wf(),
            vertices@.len() > 0,
        ensures
            final(self).added(
                old(self),
                kind,
                layer,
                shape,
                vertices@,
                text_height,
                entity_id@,
                text@,
            ),
    {
        let e = Entity::new(kind, layer, shape, vertices, text_height, entity_id, text);
        self.push_entity(e);
        proof {
            assert(self.entities@.drop_last() =~= old(self).entities@);
        }
    }

    /// Adds a point entity at `position`.
    pub fn add_point(&mut self, layer: i32, position: &Vertex, entity_id: Vec<u8>)
        requires
            old(self).wf(),
        ensures
            final(self).added(
                old(self),
                EntityTypes::Point,
                layer,
                false,
                seq![*position],
                0,
                entity_id@,
                Seq::empty(),
            ),
    {
        let vertices = vec![*position];
        proof {
            assert(seq![*position] =~= vertices@);
        }
        self.add_entity(EntityTypes::Point, layer, false, vertices, 0, entity_id, String::new());
    }

    /// Adds a line entity through two vertices.
    pub fn add_line(&mut self, layer: i32, vertices: &Vec<Vertex>, entity_id: Vec<u8>)
        requires
            old(self).wf(),
            vertices@.len() == 2,
        ensures
            final(self).added(
                old(self),
                EntityTypes::Line,
                layer,
                false,
                vertices@,
                0,
                entity_id@,
                Seq::empty(),
            ),
    {
        let pts = vec![vertices[0], vertices[1]];
        proof {
            assert(pts@ =~= vertices@);
        }
        self.add_entity(EntityTypes::Line, layer, false, pts, 0, entity_id, String::new());
    }

    /// Adds a polyline entity; `shape` closes it.
    pub fn add_polyline(
        &mut self,
        layer: i32,
        shape: bool,
        entity_id: Vec<u8>,
        vertices: &Vec<Vertex>,
    )
        requires
            old(self).wf(),
            vertices@.len() > 0,
        ensures
            final(self).added(
                old(self),
                EntityTypes::Polyline,
                layer,
                shape,
                vertices@,
                0,
                entity_id@,
                Seq::empty(),
            ),
    {
        let pts = vertices.clone();
        self.add_entity(EntityTypes::Polyline, layer, shape, pts, 0, entity_id, String::new());
    }

    /// Adds a text entity anchored at `position`.
    pub fn add_text(
        &mut self,
        layer: i32,
        position: &Vertex,
        entity_id: Vec<u8>,
        text_height: i64,
        text: String,
    )
        requires
            old(self).wf(),
        ensures
            final(self).added(
                old(self),
                EntityTypes::Text,
                layer,
                false,
                seq![*position],
                text_height,
                entity_id@,
                text@,
            ),
    {
        let vertices = vec![*position];
        proof {
            assert(seq![*position] =~= vertices@);
        }
        self.add_entity(EntityTypes::Text, layer, false, vertices, text_height, entity_id, text);
    }

    pub fn get_number_entities(&self) -> (r: usize)
        ensures
            r == self.entities@.len(),
    {
        self.entities.len()
    }

    /// The union of the entities' boxes, computed afresh.
    fn calculate_bounding_box(&self) -> (r: BoundingBox)
        ensures
            r == union_all(entity_boxes(self.entities@)),
    {
        let n = self.entities.len();
        if n == 0 {
            return BoundingBox { min_x: 0, max_x: 0, min_y: 0, max_y: 0 };
        }
        let mut r = self.entities[0].bounding_box;
        let mut i: usize = 1;
        proof {
            assert(entity_boxes(self.entities@.subrange(0, 1)) =~= seq![self.entities@[0].bounding_box]);
        }
        while i < n
            invariant
                n == self.entities@.len(),
                1 <= i <= n,
                r == union_all(entity_boxes(self.entities@.subrange(0, i as int))),
            decreases n - i,
        {
            proof {
                assert(entity_boxes(self.entities@.subrange(0, i as int + 1)).drop_last() =~= entity_boxes(
                    self.entities@.subrange(0, i as int),
                ));
            }
            r = union(&r, &self.entities[i].bounding_box);
            i = i + 1;
        }
        proof {
            assert(self.entities@.subrange(0, n as int) =~= self.entities@);
        }
        r
    }

    /// Sets the cached box to the union of the entities' boxes.
    pub fn update_bounding_box(&mut self) -> (r: BoundingBox)
        ensures
            final(self).bounding_box == union_all(entity_boxes(old(self).entities@)),
            r == final(self).bounding_box,
            final(self).entities@ == old(self).entities@,
            final(self).same_header(old(self)),
            final(self).highlighted == old(self).highlighted,
    {
        self.bounding_box = self.calculate_bounding_box();
        self.bounding_box
    }

    pub fn get_bounding_box(&self) -> (r: BoundingBox)
        ensures
            r == self.bounding_box,
    {
        self.bounding_box
    }

    /// Whether `point` lies in the block's box grown by `padding`. Only the
    /// block's box is tested, not its entities.
    pub fn point_in_bounding_box(&self, point: &Vertex, padding: i64) -> (r: bool)
        ensures
            r == self.bounding_box.holds(*point, padding as int),
    {
        contains_point(&self.bounding_box, point, padding)
    }

    pub fn bbox_intersects_block(&self, bbox: &BoundingBox) -> (r: bool)
        ensures
            r == self.bounding_box.overlaps(*bbox),
    {
        intersect(&self.bounding_box, bbox)
    }

    /// Appends to `layers` the block's layer and then each entity's layer,
    /// skipping those already there.
    pub fn get_all_layers(&self, layers: &mut Vec<i32>)
        ensures
            final(layers)@ == add_layers(old(layers)@, self.layers()),
    {
        let ghost ls = self.layers();
        if !vec_contains(layers, self.layer) {
            layers.push(self.layer);
        }
        proof {
            assert(ls.subrange(0, 1).drop_last() =~= Seq::<i32>::empty());
            assert(add_layers(old(layers)@, Seq::<i32>::empty()) == old(layers)@);
            assert(ls.subrange(0, 1).last() == self.layer);
        }
        let n = self.entities.len();
        let mut i: usize = 0;
        while i < n
            invariant
                n == self.entities@.len(),
                0 <= i <= n,
                ls == self.layers(),
                layers@ == add_layers(old(layers)@, ls.subrange(0, i as int + 1)),
            decreases n - i,
        {
            let l = self.entities[i].layer;
            proof {
                assert(ls.subrange(0, i as int + 2).drop_last() =~= ls.subrange(0, i as int + 1));
                assert(ls.subrange(0, i as int + 2).last() == l);
            }
            if !vec_contains(layers, l) {
                layers.push(l);
            }
            i = i + 1;
        }
        proof {
            assert(ls.subrange(0, n as int + 1) =~= ls);
        }
    }

    /// Marks the block and every one of its entities as highlighted.
    pub fn highlight(&mut self)
        requires
            old(self).wf(),
        ensures
            final(self).wf(),
            final(self).highlighted,
            final(self).same_header(old(self)),
            final(self).bounding_box == old(self).bounding_box,
            final(self).entities@.len() == old(self).entities@.len(),
            forall|i: int|
                0 <= i < old(self).entities@.len() ==> final(self).entities@[i].highlighted
                    && final(self).entities@[i].vertices@ == old(self).entities@[i].vertices@
                    && final(self).entities@[i].same_record(&old(self).entities@[i])
                    && final(self).entities@[i].bounding_box == old(self).entities@[i].bounding_box,
    {
        self.set_highlight_flag(true);
    }

    /// Clears the highlight of the block and of every one of its entities.
    pub fn remove_highlight(&mut self)
        requires
            old(self).wf(),
        ensures
            final(self).wf(),
            !final(self).highlighted,
            final(self).same_header(old(self)),
            final(self).bounding_box == old(self).bounding_box,
            final(self).entities@.len() == old(self).entities@.len(),
            forall|i: int|
                0 <= i < old(self).entities@.len() ==> !final(self).entities@[i].highlighted
                    && final(self).entities@[i].vertices@ == old(self).entities@[i].vertices@
                    && final(self).entities@[i].same_record(&old(self).entities@[i])
                    && final(self).entities@[i].bounding_box == old(self).entities@[i].bounding_box,
    {
        self.set_highlight_flag(false);
    }

    fn set_highlight_flag(&mut self, status: bool)
        requires
            old(self).wf(),
        ensures
            final(self).wf(),
            final(self).highlighted == status,
            final(self).same_header(old(self)),
            final(self).bounding_box == old(self).bounding_box,
            final(self).entities@.len() == old(self).entities@.len(),
            forall|i: int|
                0 <= i < old(self).entities@.len() ==> final(self).entities@[i].highlighted == status
                    && final(self).entities@[i].vertices@ == old(self).entities@[i].vertices@
                    && final(self).entities@[i].same_record(&old(self).entities@[i])
                    && final(self).entities@[i].bounding_box == old(self).entities@[i].bounding_box,
    {
        self.highlighted = status;
        let n = self.entities.len();
        let mut i: usize = 0;
        while i < n
            invariant
                n == self.entities@.len(),
                n == old(self).entities@.len(),
                0 <= i <= n,
                self.highlighted == status,
                self.same_header(old(self)),
                self.bounding_box == old(self).bounding_box,
                forall|j: int|
                    0 <= j < n ==> (#[trigger] self.entities@[j]).vertices@ == old(self).entities@[j].vertices@
                        && self.entities@[j].same_record(&old(self).entities@[j])
                        && self.entities@[j].bounding_box == old(self).entities@[j].bounding_box,
                forall|j: int| 0 <= j < i ==> (#[trigger] self.entities@[j]).highlighted == status,
            decreases n - i,
        {
            if status {
                self.entities[i].highlight();
            } else {
                self.entities[i].remove_highlight();
            }
            i = i + 1;
        }
        proof {
            assert(entity_boxes(self.entities@) =~= entity_boxes(old(self).entities@));
            assert forall|j: int| 0 <= j < n implies (#[trigger] self.entities@[j]).wf() by {
                assert(old(self).entities@[j].wf());
            }
        }
    }

    /// Moves every entity by `offset`, then computes the block's box again.
    pub fn offset_entities(&mut self, offset: &Vertex)
        requires
            old(self).wf(),
            old(self).bounding_box.can_shift(*offset),
        ensures
            final(self).wf(),
            final(self).same_header(old(self)),
            final(self).highlighted == old(self).highlighted,
            final(self).entities@.len() == old(self).entities@.len(),
            forall|i: int|
                0 <= i < old(self).entities@.len() ==> reshaped(
                    #[trigger] final(self).entities@[i],
                    old(self).entities@[i],
                    old(self).entities@[i].vertices@.map_values(|v: Vertex| v.plus(*offset)),
                ),
    {
        let n = self.entities.len();
        let mut i: usize = 0;
        proof {
            lemma_union_all_contains(entity_boxes(self.entities@));
        }
        while i < n
            invariant
                n == self.entities@.len(),
                n == old(self).entities@.len(),
                0 <= i <= n,
                old(self).bounding_box.can_shift(*offset),
                self.highlighted == old(self).highlighted,
                self.same_header(old(self)),
                self.bounding_box == old(self).bounding_box,
                old(self).wf(),
                forall|j: int| 0 <= j < n ==> {
                    let u = union_all(entity_boxes(old(self).entities@));
                    let b = #[trigger] entity_boxes(old(self).entities@)[j];
                    u.min_x <= b.min_x && b.max_x <= u.max_x && u.min_y <= b.min_y && b.max_y <= u.max_y
                },
                forall|j: int|
                    0 <= j < i ==> reshaped(
                        #[trigger] self.entities@[j],
                        old(self).entities@[j],
                        old(self).entities@[j].vertices@.map_values(|v: Vertex| v.plus(*offset)),
                    ),
                forall|j: int| i <= j < n ==> #[trigger] self.entities@[j] == old(self).entities@[j],
            decreases n - i,
        {
            proof {
                let e = old(self).entities@[i as int];
                assert(self.entities@[i as int] == e);
                assert(e.wf());
                assert(entity_boxes(old(self).entities@)[i as int] == e.bounding_box);
                let u = union_all(entity_boxes(old(self).entities@));
                assert(u == old(self).bounding_box);
                assert(u.min_x <= e.bounding_box.min_x && e.bounding_box.max_x <= u.max_x);
                assert(u.min_y <= e.bounding_box.min_y && e.bounding_box.max_y <= u.max_y);
                lemma_bounds_ordered(e.bounding_box, e.vertices@);
                lemma_inner_box_fits(e.bounding_box, old(self).bounding_box, *offset, Scale { x: 1, y: 1, den: 1 }, *offset, Rotation { m00: 1, m01: 0, m10: 0, m11: 1, den: 1 }, *offset);
            }
            self.entities[i].offset_vertices(offset);
            i = i + 1;
        }
        self.update_bounding_box();
    }

    /// Scales every entity by `scale` about `anchor`, then computes the block's
    /// box again.
    pub fn scale_entities(&mut self, scale: &Scale, anchor: &Vertex)
        requires
            old(self).wf(),
            scale.wf(),
            old(self).bounding_box.can_scale(*scale, *anchor),
        ensures
            final(self).wf(),
            final(self).same_header(old(self)),
            final(self).highlighted == old(self).highlighted,
            final(self).entities@.len() == old(self).entities@.len(),
            forall|i: int|
                0 <= i < old(self).entities@.len() ==> reshaped(
                    #[trigger] final(self).entities@[i],
                    old(self).entities@[i],
                    old(self).entities@[i].vertices@.map_values(|v: Vertex| v.scaled(*scale, *anchor)),
                ),
    {
        let n = self.entities.len();
        let mut i: usize = 0;
        proof {
            lemma_union_all_contains(entity_boxes(self.entities@));
        }
        while i < n
            invariant
                n == self.entities@.len(),
                n == old(self).entities@.len(),
                0 <= i <= n,
                scale.wf(),
                old(self).bounding_box.can_scale(*scale, *anchor),
                self.highlighted == old(self).highlighted,
                self.same_header(old(self)),
                self.bounding_box == old(self).bounding_box,
                old(self).wf(),
                forall|j: int| 0 <= j < n ==> {
                    let u = union_all(entity_boxes(old(self).entities@));
                    let b = #[trigger] entity_boxes(old(self).entities@)[j];
                    u.min_x <= b.min_x && b.max_x <= u.max_x && u.min_y <= b.min_y && b.max_y <= u.max_y
                },
                forall|j: int|
                    0 <= j < i ==> reshaped(
                        #[trigger] self.entities@[j],
                        old(self).entities@[j],
                        old(self).entities@[j].vertices@.map_values(|v: Vertex| v.scaled(*scale, *anchor)),
                    ),
                forall|j: int| i <= j < n ==> #[trigger] self.entities@[j] == old(self).entities@[j],
            decreases n - i,
        {
            proof {
                let e = old(self).entities@[i as int];
                assert(self.entities@[i as int] == e);
                assert(e.wf());
                assert(entity_boxes(old(self).entities@)[i as int] == e.bounding_box);
                let u = union_all(entity_boxes(old(self).entities@));
                assert(u == old(self).bounding_box);
                assert(u.min_x <= e.bounding_box.min_x && e.bounding_box.max_x <= u.max_x);
                assert(u.min_y <= e.bounding_box.min_y && e.bounding_box.max_y <= u.max_y);
                lemma_bounds_ordered(e.bounding_box, e.vertices@);
                lemma_inner_box_fits(e.bounding_box, old(self).bounding_box, *anchor, *scale, *anchor, Rotation { m00: 1, m01: 0, m10: 0, m11: 1, den: 1 }, *anchor);
            }
            self.entities[i].scale_vertices(scale, anchor);
            i = i + 1;
        }
        self.update_bounding_box();
    }

    /// Maps every entity by `rot_offset + v * rotation`, then computes the
    /// block's box again.
    pub fn rotate_entities(&mut self, rotation: &Rotation, rot_offset: &Vertex)
        requires
            old(self).wf(),
            rotation.wf(),
            old(self).bounding_box.can_rotate(*rotation, *rot_offset),
        ensures
            final(self).wf(),
            final(self).same_header(old(self)),
            final(self).highlighted == old(self).highlighted,
            final(self).entities@.len() == old(self).entities@.len(),
            forall|i: int|
                0 <= i < old(self).entities@.len() ==> reshaped(
                    #[trigger] final(self).entities@[i],
                    old(self).entities@[i],
                    old(self).entities@[i].vertices@.map_values(|v: Vertex| v.rotated(*rotation, *rot_offset)),
                ),
    {
        let n = self.entities.len();
        let mut i: usize = 0;
        proof {
            lemma_union_all_contains(entity_boxes(self.entities@));
        }
        while i < n
            invariant
                n == self.entities@.len(),
                n == old(self).entities@.len(),
                0 <= i <= n,
                rotation.wf(),
                old(self).bounding_box.can_rotate(*rotation, *rot_offset),
                self.highlighted == old(self).highlighted,
                self.same_header(old(self)),
                self.bounding_box == old(self).bounding_box,
                old(self).wf(),
                forall|j: int| 0 <= j < n ==> {
                    let u = union_all(entity_boxes(old(self).entities@));
                    let b = #[trigger] entity_boxes(old(self).entities@)[j];
                    u.min_x <= b.min_x && b.max_x <= u.max_x && u.min_y <= b.min_y && b.max_y <= u.max_y
                },
                forall|j: int|
                    0 <= j < i ==> reshaped(
                        #[trigger] self.entities@[j],
                        old(self).entities@[j],
                        old(self).entities@[j].vertices@.map_values(|v: Vertex| v.rotated(*rotation, *rot_offset)),
                    ),
                forall|j: int| i <= j < n ==> #[trigger] self.entities@[j] == old(self).entities@[j],
            decreases n - i,
        {
            proof {
                let e = old(self).entities@[i as int];
                assert(self.entities@[i as int] == e);
                assert(e.wf());
                assert(entity_boxes(old(self).entities@)[i as int] == e.bounding_box);
                let u = union_all(entity_boxes(old(self).entities@));
                assert(u == old(self).bounding_box);
                assert(u.min_x <= e.bounding_box.min_x && e.bounding_box.max_x <= u.max_x);
                assert(u.min_y <= e.bounding_box.min_y && e.bounding_box.max_y <= u.max_y);
                lemma_bounds_ordered(e.bounding_box, e.vertices@);
                lemma_inner_box_fits(e.bounding_box, old(self).bounding_box, *rot_offset, Scale { x: 1, y: 1, den: 1 }, *rot_offset, *rotation, *rot_offset);
            }
            self.entities[i].rotate_vertices(rotation, rot_offset);
            i = i + 1;
        }
        self.update_bounding_box();
    }

    /// The colour the block's entities fall back to: its layer's colour if
    /// one is set, else the default.
    pub open spec fn color_spec(&self, settings: &Settings) -> Rgba {
        match layer_color(settings.layer_colors@, self.layer) {
            Some(c) => c,
            None => settings.default_color,
        }
    }

    pub fn get_color(&self, settings: &Settings) -> (r: Rgba)
        ensures
            r == self.color_spec(settings),
    {
        match settings.get_layer_color(self.layer) {
            Some(c) => c,
            None => settings.default_color,
        }
    }

    /// Appends what the block's shown entities emit, placed at `placement`,
    /// numbering vertices from `*last_index` on.
    pub fn update_draw_sequence(
        &self,
        placement: &Vertex,
        settings: &Settings,
        t: &HighlightTransform,
        last_index: &mut u32,
        vertex_buffer: &mut VertexBuffer,
        index_buffer: &mut IndexBuffer,
    )
        requires
            self.wf(),
            t.wf(),
            *old(last_index) as int + entities_count(self.entities@, settings) < PRIMITIVE_RESTART,
        ensures
            final(vertex_buffer).buffer@ == old(vertex_buffer).buffer@ + entities_vertices(
                self.entities@,
                self.color_spec(settings),
                settings,
                *placement,
                *t,
            ),
            final(index_buffer).buffer@ == old(index_buffer).buffer@ + entities_indices(
                self.entities@,
                settings,
                *old(last_index) as int,
            ),
            *final(last_index) == *old(last_index) + entities_count(self.entities@, settings),
    {
        let block_color = self.get_color(settings);
        let ghost es = self.entities@;
        let ghost last0 = *last_index as int;
        let ghost vb0 = vertex_buffer.buffer@;
        let ghost ib0 = index_buffer.buffer@;
        let n = self.entities.len();
        let mut i: usize = 0;
        proof {
            assert(es.subrange(0, 0) =~= Seq::<Entity>::empty());
        }
        while i < n
            invariant
                n == es.len(),
                es == self.entities@,
                self.wf(),
                t.wf(),
                0 <= i <= n,
                block_color == self.color_spec(settings),
                last0 + entities_count(es, settings) < PRIMITIVE_RESTART,
                *last_index == last0 + entities_count(es.subrange(0, i as int), settings),
                vertex_buffer.buffer@ == vb0 + entities_vertices(
                    es.subrange(0, i as int),
                    block_color,
                    settings,
                    *placement,
                    *t,
                ),
                index_buffer.buffer@ == ib0 + entities_indices(es.subrange(0, i as int), settings, last0),
            decreases n - i,
        {
            let ghost pre = es.subrange(0, i as int);
            let ghost next = es.subrange(0, i as int + 1);
            proof {
                assert(next.drop_last() =~= pre);
                assert(next.last() == es[i as int]);
                lemma_count_prefix(es, settings, i as int + 1);
                assert(es[i as int].wf());
            }
            let e = &self.entities[i];
            if !settings.is_layer_disabled(e.layer) {
                let color = e.get_color(settings, block_color);
                e.update_draw_sequence(
                    color,
                    placement,
                    t,
                    settings.cross_size,
                    last_index,
                    vertex_buffer,
                    index_buffer,
                );
            }
            proof {
                assert(vertex_buffer.buffer@ =~= vb0 + entities_vertices(next, block_color, settings, *placement, *t));
                assert(index_buffer.buffer@ =~= ib0 + entities_indices(next, settings, last0));
            }
            i = i + 1;
        }
        proof {
            assert(es.subrange(0, n as int) =~= es);
        }
    }

    /// How many vertices the block's shown entities emit, or `u32::MAX` if
    /// that many or more.
    pub fn drawn_count(&self, settings: &Settings) -> (r: u32)
        ensures
            r == (if entities_count(self.entities@, settings) < PRIMITIVE_RESTART {
                entities_count(self.entities@, settings)
            } else {
                PRIMITIVE_RESTART as nat
            }),
    {
        let ghost es = self.entities@;
        let n = self.entities.len();
        let mut total: u32 = 0;
        let mut i: usize = 0;
        proof {
            assert(es.subrange(0, 0) =~= Seq::<Entity>::empty());
        }
        while i < n
            invariant
                n == es.len(),
                es == self.entities@,
                0 <= i <= n,
                total == (if entities_count(es.subrange(0, i as int), settings) < PRIMITIVE_RESTART {
                    entities_count(es.subrange(0, i as int), settings)
                } else {
                    PRIMITIVE_RESTART as nat
                }),
            decreases n - i,
        {
            proof {
                assert(es.subrange(0, i as int + 1).drop_last() =~= es.subrange(0, i as int));
                assert(es.subrange(0, i as int + 1).last() == es[i as int]);
            }
            let e = &self.entities[i];
            if !settings.is_layer_disabled(e.layer) {
                let nv = e.vertices.len();
                let c: usize = if nv == 1 { 4 } else { nv };
                if total == PRIMITIVE_RESTART || c >= (PRIMITIVE_RESTART - total) as usize {
                    total = PRIMITIVE_RESTART;
                } else {
                    total = total + c as u32;
                }
            }
            i = i + 1;
        }
        proof {
            assert(es.subrange(0, n as int) =~= es);
        }
        total
    }

    pub fn is_highlighted(&self) -> (r: bool)
        ensures
            r == self.highlighted,
    {
        self.highlighted
    }
}

/// Whether entities on the layer of `e` are drawn.
pub open spec fn shown(settings: &Settings, e: Entity) -> bool {
    !settings.disabled_layers@.contains(e.layer)
}

/// The number of vertices that the shown entities of `es` emit.
pub open spec fn entities_count(es: Seq<Entity>, settings: &Settings) -> nat
    decreases es.len(),
{
    if es.len() == 0 {
        0
    } else {
        entities_count(es.drop_last(), settings) + if shown(settings, es.last()) {
            es.last().draw_count()
        } else {
            0
        }
    }
}

/// The vertex records that the shown entities of `es` emit, in order.
pub open spec fn entities_vertices(
    es: Seq<Entity>,
    fallback: Rgba,
    settings: &Settings,
    placement: Vertex,
    t: HighlightTransform,
) -> Seq<VertexRecord>
    decreases es.len(),
{
    if es.len() == 0 {
        Seq::empty()
    } else {
        let prev = entities_vertices(es.drop_last(), fallback, settings, placement, t);
        let e = es.last();
        if shown(settings, e) {
            prev + e.draw_vertices(
                e.color_spec(settings, fallback),
                placement,
                t,
                settings.cross_size as int,
            )
        } else {
            prev
        }
    }
}

/// The indices that the shown entities of `es` emit, numbered from `last`.
pub open spec fn entities_indices(es: Seq<Entity>, settings: &Settings, last: int) -> Seq<u32>
    decreases es.len(),
{
    if es.len() == 0 {
        Seq::empty()
    } else {
        let prev = entities_indices(es.drop_last(), settings, last);
        let e = es.last();
        if shown(settings, e) {
            prev + e.draw_indices(last + entities_count(es.drop_last(), settings))
        } else {
            prev
        }
    }
}

proof fn lemma_count_prefix(es: Seq<Entity>, settings: &Settings, i: int)
    requires
        0 <= i <= es.len(),
    ensures
        entities_count(es.subrange(0, i), settings) <= entities_count(es, settings),
    decreases es.len(),
{
    if i < es.len() {
        lemma_count_prefix(es.drop_last(), settings, i);
        assert(es.drop_last().subrange(0, i) =~= es.subrange(0, i));
    } else {
        assert(es.subrange(0, i) =~= es);
    }
}

/// Adding layers keeps a list free of duplicates, and the result holds
/// exactly what either input holds.
pub proof fn lemma_add_layers(acc: Seq<i32>, ls: Seq<i32>)
    requires
        acc.no_duplicates(),
    ensures
        add_layers(acc, ls).no_duplicates(),
        forall|x: i32| #[trigger] add_layers(acc, ls).contains(x) <==> acc.contains(x) || ls.contains(x),
    decreases ls.len(),
{
    if ls.len() > 0 {
        lemma_add_layers(acc, ls.drop_last());
        let a = add_layers(acc, ls.drop_last());
        assert forall|x: i32| #[trigger] add_layers(acc, ls).contains(x) <==> acc.contains(x) || ls.contains(x) by {
            if ls.contains(x) && !ls.drop_last().contains(x) {
                let k = choose|k: int| 0 <= k < ls.len() && ls[k] == x;
                if k < ls.len() - 1 {
                    assert(ls.drop_last()[k] == x);
                }
            }
            if ls.drop_last().contains(x) {
                let k = choose|k: int| 0 <= k < ls.drop_last().len() && ls.drop_last()[k] == x;
                assert(ls[k] == x);
            }
            if add_layers(acc, ls).contains(x) && !a.contains(x) {
                assert(x == ls.last());
            }
            if a.contains(x) && !a.contains(ls.last()) {
                assert(a.push(ls.last())[a.push(ls.last()).len() - 1] == ls.last());
                let k = choose|k: int| 0 <= k < a.len() && a[k] == x;
                assert(a.push(ls.last())[k] == x);
            }
            if x == ls.last() {
                if !a.contains(x) {
                    assert(a.push(x)[a.len() as int] == x);
                }
            }
        }
        if !a.contains(ls.last()) {
            assert forall|i: int, j: int| 0 <= i < j < a.push(ls.last()).len() implies a.push(ls.last())[i] != a.push(ls.last())[j] by {
                if j == a.len() {
                    assert(a.push(ls.last())[i] == a[i]);
                }
            }
        }
    }
}

/// Every box of a non-empty sequence lies inside their union.
pub proof fn lemma_union_all_contains(boxes: Seq<BoundingBox>)
    ensures
        forall|i: int|
            0 <= i < boxes.len() ==> {
                let u = union_all(boxes);
                let b = #[trigger] boxes[i];
                u.min_x <= b.min_x && b.max_x <= u.max_x && u.min_y <= b.min_y && b.max_y <= u.max_y
            },
    decreases boxes.len(),
{
    if boxes.len() > 1 {
        let prev = boxes.drop_last();
        lemma_union_all_contains(prev);
        let u = union_all(boxes);
        let p = union_all(prev);
        assert(u == p.joined(boxes.last()));
        assert forall|i: int| 0 <= i < boxes.len() implies {
            let b = #[trigger] boxes[i];
            u.min_x <= b.min_x && b.max_x <= u.max_x && u.min_y <= b.min_y && b.max_y <= u.max_y
        } by {
            if i < boxes.len() - 1 {
                assert(boxes[i] == prev[i]);
            }
        }
    }
}

/// `a` is `b` with its vertices replaced by `vs`.
pub open spec fn reshaped(a: Entity, b: Entity, vs: Seq<Vertex>) -> bool {
    &&& a.wf()
    &&& a.vertices@ == vs
    &&& a.same_record(&b)
    &&& a.highlighted == b.highlighted
}

/// Whether `v` holds `x`.
pub fn vec_contains(v: &Vec<i32>, x: i32) -> (r: bool)
    ensures
        r == v@.contains(x),
{
    let n = v.len();
    let mut i: usize = 0;
    while i < n
        invariant
            n == v@.len(),
            0 <= i <= n,
            forall|j: int| 0 <= j < i ==> v@[j] != x,
        decreases n - i,
    {
        if v[i] == x {
            return true;
        }
        i = i + 1;
    }
    false
}

} // verus!
