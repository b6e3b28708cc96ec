use vstd::prelude::*;
use vstd::utf8::{decode_utf8, encode_utf8};

use crate::block::{
    add_layers, entities_count, entities_indices, entities_vertices, lemma_add_layers, reshaped, Block,
};
use crate::bounding_box::{BoundingBox, WorldBox};
use crate::document::{
    block_names_of, entity_from, kept_blocks, kept_inserts, kept_records, record_ok, BlockRecord,
    Document, EntityRecord, InsertRecord,
};
use crate::entity::{EntityTypes, HighlightTransform};
use crate::memory::{IndexBuffer, VertexBuffer, VertexRecord, PRIMITIVE_RESTART};
use crate::order::{ascending, sort_layers, sort_names, string_views, strings_ascending};
use crate::settings::Settings;
use crate::text::{decimal_i32, entity_kind, names_block, parse_entity_index, parse_layer, view_as_block_key};
use crate::vector::{fits_i64, lemma_rotation_bound, rotate_coords, Rotation, Scale, Vertex};

verus! {

/// A placement of a block, by name, at a world offset.
#[derive(Debug)]
pub struct Insert {
    pub layer: i32,
    pub name: String,
    pub position: Vertex,
}

impl Insert {
    pub fn new(name: String, layer: i32, position: &Vertex) -> (r: Insert)
        ensures
            r.name@ == name@,
            r.layer == layer,
            r.position == *position,
    {
        Insert { layer, name, position: *position }
    }
}

pub open spec fn names(bs: Seq<Block>) -> Seq<Seq<char>> {
    bs.map_values(|b: Block| b.name@)
}

/// `b` is the block that the kept record `r` describes.
pub open spec fn block_from(b: Block, r: BlockRecord) -> bool {
    let kept = kept_records(r.entities@);
    &&& b.wf()
    &&& b.name@ == r.name@
    &&& b.layer == decimal_i32(r.layer@)->0
    &&& b.centroid == r.centroid
    &&& !b.highlighted
    &&& b.entities@.len() == kept.len()
    &&& forall|j: int| 0 <= j < kept.len() ==> entity_from(#[trigger] b.entities@[j], kept[j])
}

/// `i` is the placement that the kept record `r` describes.
pub open spec fn insert_from(i: Insert, r: InsertRecord) -> bool {
    &&& i.name@ == r.name@
    &&& i.layer == decimal_i32(r.layer@)->0
    &&& i.position == r.position
}

/// Where a block is placed: the position of the first placement naming it,
/// or the origin when there is none.
pub open spec fn placement_of(inserts: Seq<Insert>, name: Seq<char>) -> Vertex
    decreases inserts.len(),
{
    if inserts.len() == 0 {
        Vertex { x: 0, y: 0 }
    } else if inserts[0].name@ == name {
        inserts[0].position
    } else {
        placement_of(inserts.drop_first(), name)
    }
}

/// The number of entities over all blocks.
pub open spec fn total_entities(bs: Seq<Block>) -> nat
    decreases bs.len(),
{
    if bs.len() == 0 {
        0
    } else {
        total_entities(bs.drop_last()) + bs.last().entities@.len()
    }
}

pub open spec fn key_names(keys: Seq<String>) -> Seq<Seq<char>> {
    keys.map_values(|k: String| k@)
}

/// The block's flag, and every entity's, is `status`.
pub open spec fn flagged(b: Block, status: bool) -> bool {
    &&& b.highlighted == status
    &&& forall|j: int| 0 <= j < b.entities@.len() ==> (#[trigger] b.entities@[j]).highlighted == status
}

/// `a` is `b` with at most its highlight flags changed.
pub open spec fn same_block_shape(a: Block, b: Block) -> bool {
    &&& a.wf()
    &&& a.same_header(&b)
    &&& a.bounding_box == b.bounding_box
    &&& a.entities@.len() == b.entities@.len()
    &&& forall|j: int|
        0 <= j < a.entities@.len() ==> (#[trigger] a.entities@[j]).vertices@ == b.entities@[j].vertices@
            && a.entities@[j].same_record(&b.entities@[j]) && a.entities@[j].bounding_box
            == b.entities@[j].bounding_box
}

/// Whether the block's box, placed at `o` and grown by `pad`, holds `p`.
pub open spec fn point_hits(b: Block, o: Vertex, p: Vertex, pad: int) -> bool {
    &&& b.bounding_box.min_x - pad <= p.x - o.x <= b.bounding_box.max_x + pad
    &&& b.bounding_box.min_y - pad <= p.y - o.y <= b.bounding_box.max_y + pad
}

/// The names of the blocks of `bs` whose placed box holds `p`, in order.
pub open spec fn point_hit_names(bs: Seq<Block>, inserts: Seq<Insert>, p: Vertex, pad: int) -> Seq<
    Seq<char>,
>
    decreases bs.len(),
{
    if bs.len() == 0 {
        Seq::empty()
    } else {
        let prev = point_hit_names(bs.drop_last(), inserts, p, pad);
        let b = bs.last();
        if point_hits(b, placement_of(inserts, b.name@), p, pad) {
            prev.push(b.name@)
        } else {
            prev
        }
    }
}

/// The number of vertices that the blocks of `bs` emit.
pub open spec fn blocks_count(bs: Seq<Block>, settings: &Settings) -> nat
    decreases bs.len(),
{
    if bs.len() == 0 {
        0
    } else {
        blocks_count(bs.drop_last(), settings) + entities_count(bs.last().entities@, settings)
    }
}

/// The vertex records of the blocks of `bs`, each at its placement.
pub open spec fn blocks_vertices(
    bs: Seq<Block>,
    inserts: Seq<Insert>,
    settings: &Settings,
    t: HighlightTransform,
) -> Seq<VertexRecord>
    decreases bs.len(),
{
    if bs.len() == 0 {
        Seq::empty()
    } else {
        let b = bs.last();
        blocks_vertices(bs.drop_last(), inserts, settings, t) + entities_vertices(
            b.entities@,
            b.color_spec(settings),
            settings,
            placement_of(inserts, b.name@),
            t,
        )
    }
}

/// The indices of the blocks of `bs`, numbered from `last` on.
pub open spec fn blocks_indices(bs: Seq<Block>, settings: &Settings, last: int) -> Seq<u32>
    decreases bs.len(),
{
    if bs.len() == 0 {
        Seq::empty()
    } else {
        blocks_indices(bs.drop_last(), settings, last) + entities_indices(
            bs.last().entities@,
            settings,
            last + blocks_count(bs.drop_last(), settings),
        )
    }
}

/// The name, as bytes, of the block that a view shows alone, if it names one.
pub open spec fn view_key(view: Seq<char>) -> Option<Seq<u8>> {
    let bs = encode_utf8(view);
    if names_block(bs) {
        Some(bs.subrange(7, bs.len() as int))
    } else {
        None
    }
}

proof fn lemma_blocks_count_prefix(bs: Seq<Block>, settings: &Settings, i: int)
    requires
        0 <= i <= bs.len(),
    ensures
        blocks_count(bs.subrange(0, i), settings) <= blocks_count(bs, settings),
    decreases bs.len(),
{
    if i < bs.len() {
        lemma_blocks_count_prefix(bs.drop_last(), settings, i);
        assert(bs.drop_last().subrange(0, i) =~= bs.subrange(0, i));
    } else {
        assert(bs.subrange(0, i) =~= bs);
    }
}

/// The first highlighted block of `bs`, if any.
pub open spec fn first_highlighted(bs: Seq<Block>) -> Option<int>
    decreases bs.len(),
{
    if bs.len() == 0 {
        None
    } else {
        match first_highlighted(bs.drop_last()) {
            Some(i) => Some(i),
            None => if bs.last().highlighted {
                Some(bs.len() - 1)
            } else {
                None
            },
        }
    }
}

/// `a` is `b` with each entity's vertices mapped by `f`.
pub open spec fn block_reshaped(a: Block, b: Block, f: spec_fn(Vertex) -> Vertex) -> bool {
    &&& a.wf()
    &&& a.same_header(&b)
    &&& a.highlighted == b.highlighted
    &&& a.entities@.len() == b.entities@.len()
    &&& forall|j: int|
        0 <= j < a.entities@.len() ==> reshaped(
            #[trigger] a.entities@[j],
            b.entities@[j],
            b.entities@[j].vertices@.map_values(f),
        )
}

/// The anchor of a scale, in the local space of a block placed at `o`.
pub open spec fn local_point(p: Vertex, o: Vertex) -> Vertex {
    Vertex { x: (p.x - o.x) as i64, y: (p.y - o.y) as i64 }
}

pub open spec fn local_point_fits(p: Vertex, o: Vertex) -> bool {
    fits_i64(p.x - o.x) && fits_i64(p.y - o.y)
}

/// The offset of a rotation, in the local space of a block placed at `o`:
/// `rot_offset - o + o * r`.
pub open spec fn local_rot_x(r: Rotation, rot_offset: Vertex, o: Vertex) -> int {
    rot_offset.x - o.x + r.apply_x(o.x as int, o.y as int)
}

pub open spec fn local_rot_y(r: Rotation, rot_offset: Vertex, o: Vertex) -> int {
    rot_offset.y - o.y + r.apply_y(o.x as int, o.y as int)
}

pub open spec fn local_rot_fits(r: Rotation, rot_offset: Vertex, o: Vertex) -> bool {
    fits_i64(local_rot_x(r, rot_offset, o)) && fits_i64(local_rot_y(r, rot_offset, o))
}

pub open spec fn local_rot_offset(r: Rotation, rot_offset: Vertex, o: Vertex) -> Vertex {
    Vertex { x: local_rot_x(r, rot_offset, o) as i64, y: local_rot_y(r, rot_offset, o) as i64 }
}

/// Whether some highlighted block of `bs` is named `name`.
pub open spec fn highlighted_name(bs: Seq<Block>, name: Seq<char>) -> bool {
    exists|i: int| 0 <= i < bs.len() && #[trigger] bs[i].name@ == name && bs[i].highlighted
}

proof fn lemma_first_highlighted_prefix(bs: Seq<Block>, k: int)
    requires
        0 < k <= bs.len(),
        first_highlighted(bs.subrange(0, k - 1)) is None,
        bs[k - 1].highlighted,
    ensures
        first_highlighted(bs) == Some(k - 1),
    decreases bs.len(),
{
    if k < bs.len() {
        assert(bs.drop_last().subrange(0, k - 1) =~= bs.subrange(0, k - 1));
        lemma_first_highlighted_prefix(bs.drop_last(), k);
    } else {
        assert(bs.drop_last() =~= bs.subrange(0, k - 1));
    }
}

/// Every layer of the blocks of `bs`, each once, in first-seen order.
pub open spec fn pattern_layers(bs: Seq<Block>) -> Seq<i32>
    decreases bs.len(),
{
    if bs.len() == 0 {
        Seq::empty()
    } else {
        add_layers(pattern_layers(bs.drop_last()), bs.last().layers())
    }
}

proof fn lemma_pattern_layers(bs: Seq<Block>)
    ensures
        pattern_layers(bs).no_duplicates(),
        forall|x: i32|
            #[trigger] pattern_layers(bs).contains(x) <==> exists|i: int|
                0 <= i < bs.len() && (#[trigger] bs[i].layers()).contains(x),
    decreases bs.len(),
{
    if bs.len() > 0 {
        let prev = bs.drop_last();
        lemma_pattern_layers(prev);
        lemma_add_layers(pattern_layers(prev), bs.last().layers());
        assert forall|x: i32|
            #[trigger] pattern_layers(bs).contains(x) <==> exists|i: int|
                0 <= i < bs.len() && (#[trigger] bs[i].layers()).contains(x) by {
            if pattern_layers(prev).contains(x) {
                let i = choose|i: int| 0 <= i < prev.len() && (#[trigger] prev[i].layers()).contains(x);
                assert(bs[i] == prev[i]);
            }
            if exists|i: int| 0 <= i < bs.len() && (#[trigger] bs[i].layers()).contains(x) {
                let i = choose|i: int| 0 <= i < bs.len() && (#[trigger] bs[i].layers()).contains(x);
                if i < bs.len() - 1 {
                    assert(prev[i] == bs[i]);
                }
            }
        }
    }
}

/// What a box query finds among `bs`: the names of the blocks whose placed
/// box meets `q`, in order, and the union of those boxes. With a block view
/// (`key`), only the viewed block counts, at the origin.
pub open spec fn bbox_scan(
    bs: Seq<Block>,
    inserts: Seq<Insert>,
    q: BoundingBox,
    key: Option<Seq<u8>>,
) -> (Seq<Seq<char>>, Option<WorldBox>)
    decreases bs.len(),
{
    if bs.len() == 0 {
        (Seq::empty(), None)
    } else {
        let (found, u) = bbox_scan(bs.drop_last(), inserts, q, key);
        let b = bs.last();
        let considered = match key {
            Some(k) => encode_utf8(b.name@) == k,
            None => true,
        };
        let o = if key is Some {
            Vertex { x: 0, y: 0 }
        } else {
            placement_of(inserts, b.name@)
        };
        let w = b.bounding_box.placed(o);
        if considered && w.meets(q) {
            (
                found.push(b.name@),
                match u {
                    Some(x) => Some(x.joined(w)),
                    None => Some(w),
                },
            )
        } else {
            (found, u)
        }
    }
}

/// The union of the placed boxes of the highlighted blocks of `bs`.
pub open spec fn highlighted_union(bs: Seq<Block>, inserts: Seq<Insert>) -> Option<WorldBox>
    decreases bs.len(),
{
    if bs.len() == 0 {
        None
    } else {
        let u = highlighted_union(bs.drop_last(), inserts);
        let b = bs.last();
        let w = b.bounding_box.placed(placement_of(inserts, b.name@));
        if b.highlighted {
            match u {
                Some(x) => Some(x.joined(w)),
                None => Some(w),
            }
        } else {
            u
        }
    }
}

/// What `Pattern::offset_highlighted_objects` leaves: `after` from `before`.
/// In a view of one block (`key`), the first highlighted block has its
/// entities moved, if its box stays in range; otherwise every placement of a
/// highlighted block is moved, if it stays in range.
pub open spec fn offset_applied(
    after: &Pattern,
    before: &Pattern,
    offset: Vertex,
    key: Option<Seq<u8>>,
) -> bool {
    &&& after.blocks@.len() == before.blocks@.len()
    &&& after.entities@.len() == before.entities@.len()
    &&& key is Some ==> {
        &&& after.entities@ == before.entities@
        &&& match first_highlighted(before.blocks@) {
            Some(i) => forall|j: int|
                0 <= j < before.blocks@.len() ==> if j == i
                    && before.blocks@[i].bounding_box.can_shift(offset) {
                    block_reshaped(
                        #[trigger] after.blocks@[j],
                        before.blocks@[j],
                        |v: Vertex| v.plus(offset),
                    )
                } else {
                    after.blocks@[j] == before.blocks@[j]
                },
            None => after.blocks@ == before.blocks@,
        }
    }
    &&& key is None ==> {
        &&& after.blocks@ == before.blocks@
        &&& forall|k: int|
            0 <= k < before.entities@.len() ==> {
                let a = #[trigger] after.entities@[k];
                let b = before.entities@[k];
                &&& a.name@ == b.name@
                &&& a.layer == b.layer
                &&& a.position == if highlighted_name(before.blocks@, b.name@)
                    && b.position.can_add(offset) {
                    b.position.plus(offset)
                } else {
                    b.position
                }
            }
    }
}

/// What `Pattern::scale_highlighted_objects` leaves: `after` from `before`.
/// In a view of one block (`key`), the first highlighted block is scaled about
/// `anchor`; otherwise every highlighted block is scaled about `anchor` taken
/// into its local space. A block whose result would leave the range stays.
pub open spec fn scale_applied(
    after: &Pattern,
    before: &Pattern,
    scale: Scale,
    anchor: Vertex,
    key: Option<Seq<u8>>,
) -> bool {
    &&& after.entities@ == before.entities@
    &&& after.blocks@.len() == before.blocks@.len()
    &&& key is Some ==> match first_highlighted(before.blocks@) {
        Some(i) => forall|j: int|
            0 <= j < before.blocks@.len() ==> if j == i
                && before.blocks@[i].bounding_box.can_scale(scale, anchor) {
                block_reshaped(
                    #[trigger] after.blocks@[j],
                    before.blocks@[j],
                    |v: Vertex| v.scaled(scale, anchor),
                )
            } else {
                after.blocks@[j] == before.blocks@[j]
            },
        None => after.blocks@ == before.blocks@,
    }
    &&& key is None ==> forall|j: int|
        0 <= j < before.blocks@.len() ==> {
            let b = before.blocks@[j];
            let o = placement_of(before.entities@, b.name@);
            let a = local_point(anchor, o);
            if b.highlighted && local_point_fits(anchor, o) && b.bounding_box.can_scale(scale, a) {
                block_reshaped(#[trigger] after.blocks@[j], b, |v: Vertex| v.scaled(scale, a))
            } else {
                after.blocks@[j] == b
            }
        }
}

/// What `Pattern::rotate_highlights` leaves: `after` from `before`. In a view
/// of one block (`key`), the first highlighted block is mapped by
/// `rot_offset + v * rotation`; otherwise every highlighted block is mapped by
/// that rotation taken into its local space. A block whose result would leave
/// the range stays.
pub open spec fn rotate_applied(
    after: &Pattern,
    before: &Pattern,
    rotation: Rotation,
    rot_offset: Vertex,
    key: Option<Seq<u8>>,
) -> bool {
    &&& after.entities@ == before.entities@
    &&& after.blocks@.len() == before.blocks@.len()
    &&& key is Some ==> match first_highlighted(before.blocks@) {
        Some(i) => forall|j: int|
            0 <= j < before.blocks@.len() ==> if j == i
                && before.blocks@[i].bounding_box.can_rotate(rotation, rot_offset) {
                block_reshaped(
                    #[trigger] after.blocks@[j],
                    before.blocks@[j],
                    |v: Vertex| v.rotated(rotation, rot_offset),
                )
            } else {
                after.blocks@[j] == before.blocks@[j]
            },
        None => after.blocks@ == before.blocks@,
    }
    &&& key is None ==> forall|j: int|
        0 <= j < before.blocks@.len() ==> {
            let b = before.blocks@[j];
            let o = placement_of(before.entities@, b.name@);
            let l = local_rot_offset(rotation, rot_offset, o);
            if b.highlighted && local_rot_fits(rotation, rot_offset, o)
                && b.bounding_box.can_rotate(rotation, l) {
                block_reshaped(#[trigger] after.blocks@[j], b, |v: Vertex| v.rotated(rotation, l))
            } else {
                after.blocks@[j] == b
            }
        }
}

/// Whether `keys` holds `name`.
fn keys_contain(keys: &Vec<String>, name: &String) -> (r: bool)
    ensures
        r == key_names(keys@).contains(name@),
{
    let n = keys.len();
    let mut i: usize = 0;
    while i < n
        invariant
            n == keys@.len(),
            0 <= i <= n,
            forall|j: int| 0 <= j < i ==> key_names(keys@)[j] != name@,
        decreases n - i,
    {
        if keys[i] == *name {
            proof {
                assert(key_names(keys@)[i as int] == name@);
            }
            return true;
        }
        i = i + 1;
    }
    false
}

/// All blocks and their placements.
#[derive(Debug)]
pub struct Pattern {
    pub blocks: Vec<Block>,
    pub entities: Vec<Insert>,
}

/// Whether some block of `blocks` has the name `name`.
fn has_block(blocks: &Vec<Block>, name: &String) -> (r: bool)
    ensures
        r == names(blocks@).contains(name@),
{
    let n = blocks.len();
    let mut i: usize = 0;
    while i < n
        invariant
            n == blocks@.len(),
            0 <= i <= n,
            forall|j: int| 0 <= j < i ==> names(blocks@)[j] != name@,
        decreases n - i,
    {
        if blocks[i].name == *name {
            proof {
                assert(names(blocks@)[i as int] == name@);
            }
            return true;
        }
        i = i + 1;
    }
    false
}

/// Adds to `block` the entity that `r` describes, if `r` is acceptable.
fn add_record(block: &mut Block, r: &EntityRecord)
    requires
        old(block).wf(),
    ensures
        final(block).wf(),
        final(block).same_header(old(block)),
        final(block).highlighted == old(block).highlighted,
        record_ok(*r) ==> final(block).entities@.len() == old(block).entities@.len() + 1
            && final(block).entities@.drop_last() == old(block).entities@
            && entity_from(final(block).entities@.last(), *r),
        !record_ok(*r) ==> final(block).entities@ == old(block).entities@,
{
    let layer = match parse_layer(r.layer.as_str()) {
        Some(l) => l,
        None => return,
    };
    let id = match parse_entity_index(r.entity_index.as_str()) {
        Some(id) => id,
        None => return,
    };
    let kind = entity_kind(&r.entity_type);
    match kind {
        Some(EntityTypes::Point) => {
            if let Some(p) = r.position {
                block.add_point(layer, &p, id);
            }
        },
        Some(EntityTypes::Line) => {
            if let Some(vs) = &r.vertices {
                if vs.len() == 2 {
                    block.add_line(layer, vs, id);
                }
            }
        },
        Some(EntityTypes::Polyline) => {
            if let Some(vs) = &r.vertices {
                if vs.len() >= 1 {
                    let shape = match r.shape {
                        Some(s) => s,
                        None => false,
                    };
                    block.add_polyline(layer, shape, id, vs);
                }
            }
        },
        Some(EntityTypes::Text) => {
            if let (Some(p), Some(h), Some(t)) = (r.start_point, r.text_height, &r.text) {
                block.add_text(layer, &p, id, h, t.clone());
            }
        },
        _ => {},
    }
}

impl Pattern {
    /// Block names are unique, every block is well formed, and every
    /// placement names a block.
    pub open spec fn wf(&self) -> bool {
        &&& forall|i: int| 0 <= i < self.blocks@.len() ==> (#[trigger] self.blocks@[i]).wf()
        &&& names(self.blocks@).no_duplicates()
        &&& forall|k: int|
            0 <= k < self.entities@.len() ==> names(self.blocks@).contains(
                (#[trigger] self.entities@[k]).name@,
            )
    }

    /// `self` is `o` with at most highlight flags changed.
    pub open spec fn same_shapes(&self, o: &Pattern) -> bool {
        &&& self.wf()
        &&& self.entities@ == o.entities@
        &&& self.blocks@.len() == o.blocks@.len()
        &&& forall|i: int|
            0 <= i < self.blocks@.len() ==> same_block_shape(#[trigger] self.blocks@[i], o.blocks@[i])
    }

    /// `self` is `before` with exactly the blocks named in `keys`
    /// highlighted, each with all of its entities.
    pub open spec fn selected(&self, before: &Pattern, keys: Seq<Seq<char>>) -> bool {
        &&& self.same_shapes(before)
        &&& forall|i: int|
            0 <= i < self.blocks@.len() ==> flagged(
                #[trigger] self.blocks@[i],
                keys.contains(self.blocks@[i].name@),
            )
    }

    pub fn get_number_blocks(&self) -> (r: usize)
        ensures
            r == self.blocks@.len(),
    {
        self.blocks.len()
    }

    pub fn get_number_inserts(&self) -> (r: usize)
        ensures
            r == self.entities@.len(),
    {
        self.entities.len()
    }

    /// The number of entities over all blocks (`usize::MAX` if it were
    /// larger).
    pub fn get_number_entities(&self) -> (r: usize)
        ensures
            r == (if total_entities(self.blocks@) <= usize::MAX {
                total_entities(self.blocks@)
            } else {
                usize::MAX as nat
            }),
    {
        let n = self.blocks.len();
        let mut total: usize = 0;
        let mut i: usize = 0;
        while i < n
            invariant
                n == self.blocks@.len(),
                0 <= i <= n,
                total == (if total_entities(self.blocks@.subrange(0, i as int)) <= usize::MAX {
                    total_entities(self.blocks@.subrange(0, i as int))
                } else {
                    usize::MAX as nat
                }),
            decreases n - i,
        {
            proof {
                assert(self.blocks@.subrange(0, i as int + 1).drop_last() =~= self.blocks@.subrange(0, i as int));
            }
            let c = self.blocks[i].get_number_entities();
            if total == usize::MAX || c > usize::MAX - total {
                total = usize::MAX;
            } else {
                total = total + c;
            }
            i = i + 1;
        }
        proof {
            assert(self.blocks@.subrange(0, n as int) =~= self.blocks@);
        }
        total
    }

    /// Where the block named `block_key` is placed; the origin if no
    /// placement names it.
    pub fn get_offset_for_block(&self, block_key: &String) -> (r: Vertex)
        ensures
            r == placement_of(self.entities@, block_key@),
    {
        let n = self.entities.len();
        let mut i: usize = 0;
        proof {
            assert(self.entities@.subrange(0, n as int) =~= self.entities@);
        }
        while i < n
            invariant
                n == self.entities@.len(),
                0 <= i <= n,
                placement_of(self.entities@.subrange(i as int, n as int), block_key@) == placement_of(
                    self.entities@,
                    block_key@,
                ),
            decreases n - i,
        {
            proof {
                let rest = self.entities@.subrange(i as int, n as int);
                assert(rest.drop_first() =~= self.entities@.subrange(i as int + 1, n as int));
                assert(rest[0] == self.entities@[i as int]);
            }
            if self.entities[i].name == *block_key {
                return self.entities[i].position;
            }
            i = i + 1;
        }
        Vertex { x: 0, y: 0 }
    }

    /// The index of the block named `block_name`, if there is one.
    pub fn block_in_pattern(&self, block_name: &String) -> (r: Option<usize>)
        ensures
            r is None <==> !names(self.blocks@).contains(block_name@),
            r matches Some(i) ==> i < self.blocks@.len() && self.blocks@[i as int].name@ == block_name@,
    {
        let n = self.blocks.len();
        let mut i: usize = 0;
        while i < n
            invariant
                n == self.blocks@.len(),
                0 <= i <= n,
                forall|j: int| 0 <= j < i ==> names(self.blocks@)[j] != block_name@,
            decreases n - i,
        {
            if self.blocks[i].name == *block_name {
                proof {
                    assert(names(self.blocks@)[i as int] == block_name@);
                }
                return Some(i);
            }
            i = i + 1;
        }
        None
    }

    /// Sets the highlight of every block, and of its entities, to whether its
    /// name is in `keys` (`select` true) or to false (`select` false).
    fn set_flags(&mut self, keys: &Vec<String>, select: bool)
        requires
            old(self).wf(),
        ensures
            final(self).same_shapes(old(self)),
            forall|i: int|
                0 <= i < final(self).blocks@.len() ==> flagged(
                    #[trigger] final(self).blocks@[i],
                    select && key_names(keys@).contains(final(self).blocks@[i].name@),
                ),
    {
        let n = self.blocks.len();
        let mut i: usize = 0;
        while i < n
            invariant
                n == self.blocks@.len(),
                n == old(self).blocks@.len(),
                0 <= i <= n,
                old(self).wf(),
                self.entities@ == old(self).entities@,
                forall|j: int| 0 <= j < n ==> same_block_shape(#[trigger] self.blocks@[j], old(self).blocks@[j]),
                forall|j: int|
                    0 <= j < i ==> flagged(
                        #[trigger] self.blocks@[j],
                        select && key_names(keys@).contains(self.blocks@[j].name@),
                    ),
                forall|j: int| i <= j < n ==> #[trigger] self.blocks@[j] == old(self).blocks@[j],
            decreases n - i,
        {
            proof {
                assert(self.blocks@[i as int] == old(self).blocks@[i as int]);
                assert(old(self).blocks@[i as int].wf());
            }
            let on = select && keys_contain(keys, &self.blocks[i].name);
            if on {
                self.blocks[i].highlight();
            } else {
                self.blocks[i].remove_highlight();
            }
            i = i + 1;
        }
        proof {
            assert(names(self.blocks@) =~= names(old(self).blocks@));
            assert forall|k: int| 0 <= k < self.entities@.len() implies names(self.blocks@).contains(
                (#[trigger] self.entities@[k]).name@,
            ) by {
                assert(names(old(self).blocks@).contains(old(self).entities@[k].name@));
            }
        }
    }

    /// Clears every highlight.
    pub fn reset_selection(&mut self)
        requires
            old(self).wf(),
        ensures
            final(self).same_shapes(old(self)),
            forall|i: int| 0 <= i < final(self).blocks@.len() ==> flagged(#[trigger] final(self).blocks@[i], false),
    {
        let none: Vec<String> = Vec::new();
        self.set_flags(&none, false);
    }

    /// Highlights exactly the blocks named in `block_keys`, and clears every
    /// other highlight: a selection replaces the one before.
    pub fn highlight_selection(&mut self, block_keys: &Vec<String>)
        requires
            old(self).wf(),
        ensures
            final(self).selected(old(self), key_names(block_keys@)),
    {
        self.set_flags(block_keys, true);
    }

    /// Sets the highlight of the block named `block_key`; tells whether there
    /// is such a block.
    pub fn set_highlight(&mut self, block_key: &String, status: bool) -> (r: bool)
        requires
            old(self).wf(),
        ensures
            r == names(old(self).blocks@).contains(block_key@),
            final(self).same_shapes(old(self)),
            forall|i: int|
                0 <= i < final(self).blocks@.len() ==> if final(self).blocks@[i].name@ == block_key@ {
                    flagged(#[trigger] final(self).blocks@[i], status)
                } else {
                    final(self).blocks@[i] == old(self).blocks@[i]
                },
    {
        let found = self.block_in_pattern(block_key);
        proof {
            assert forall|j: int| 0 <= j < self.blocks@.len() implies #[trigger] self.blocks@[j].wf() by {}
            assert(names(self.blocks@) =~= names(old(self).blocks@));
        }
        match found {
            Some(i) => {
                proof {
                    assert(self.blocks@[i as int].wf());
                    assert forall|j: int| 0 <= j < self.blocks@.len() && j != i implies self.blocks@[j].name@ != block_key@ by {
                        assert(names(self.blocks@)[j] == self.blocks@[j].name@);
                        assert(names(self.blocks@)[i as int] == self.blocks@[i as int].name@);
                    }
                }
                if status {
                    self.blocks[i].highlight();
                } else {
                    self.blocks[i].remove_highlight();
                }
                proof {
                    assert(names(self.blocks@) =~= names(old(self).blocks@));
                    assert forall|k: int| 0 <= k < self.entities@.len() implies names(self.blocks@).contains(
                        (#[trigger] self.entities@[k]).name@,
                    ) by {
                        assert(names(old(self).blocks@).contains(old(self).entities@[k].name@));
                    }
                }
                true
            },
            None => {
                proof {
                    assert forall|j: int| 0 <= j < self.blocks@.len() implies self.blocks@[j].name@ != block_key@ by {
                        assert(names(self.blocks@)[j] == self.blocks@[j].name@);
                    }
                }
                false
            },
        }
    }

    /// The names of the blocks whose placed box, grown by `threshold`, holds
    /// `point`, in block order.
    pub fn find_blocks_with_point(&self, point: &Vertex, threshold: i64) -> (r: Vec<String>)
        ensures
            key_names(r@) == point_hit_names(self.blocks@, self.entities@, *point, threshold as int),
    {
        let mut out: Vec<String> = Vec::new();
        let n = self.blocks.len();
        let mut i: usize = 0;
        while i < n
            invariant
                n == self.blocks@.len(),
                0 <= i <= n,
                key_names(out@) == point_hit_names(
                    self.blocks@.subrange(0, i as int),
                    self.entities@,
                    *point,
                    threshold as int,
                ),
            decreases n - i,
        {
            proof {
                assert(self.blocks@.subrange(0, i as int + 1).drop_last() =~= self.blocks@.subrange(0, i as int));
            }
            let b = &self.blocks[i];
            let o = self.get_offset_for_block(&b.name);
            let pad = threshold as i128;
            let px = point.x as i128 - o.x as i128;
            let py = point.y as i128 - o.y as i128;
            let bb = b.bounding_box;
            if bb.min_x as i128 - pad <= px && px <= bb.max_x as i128 + pad && bb.min_y as i128 - pad <= py
                && py <= bb.max_y as i128 + pad {
                out.push(b.name.clone());
                proof {
                    assert(key_names(out@) =~= point_hit_names(
                        self.blocks@.subrange(0, i as int + 1),
                        self.entities@,
                        *point,
                        threshold as int,
                    ));
                }
            }
            i = i + 1;
        }
        proof {
            assert(self.blocks@.subrange(0, n as int) =~= self.blocks@);
        }
        out
    }

    /// The index of the block that `settings.view` shows alone: the block
    /// whose name the view names, if there is one.
    pub open spec fn viewed_block(&self, settings: &Settings) -> Option<int> {
        match view_key(settings.view@) {
            Some(key) => if exists|i: int|
                0 <= i < self.blocks@.len() && encode_utf8(#[trigger] self.blocks@[i].name@) == key {
                Some(
                    choose|i: int|
                        0 <= i < self.blocks@.len() && encode_utf8(#[trigger] self.blocks@[i].name@)
                            == key,
                )
            } else {
                None
            },
            None => None,
        }
    }

    /// How many vertices a drawing pass emits.
    pub open spec fn scene_count(&self, settings: &Settings) -> nat {
        match view_key(settings.view@) {
            Some(_) => match self.viewed_block(settings) {
                Some(i) => entities_count(self.blocks@[i].entities@, settings),
                None => 0,
            },
            None => blocks_count(self.blocks@, settings),
        }
    }

    /// The vertex records of a drawing pass: the viewed block alone at the
    /// origin, or every block at its placement.
    pub open spec fn scene_vertices(&self, settings: &Settings) -> Seq<VertexRecord> {
        let t = settings.transform_spec();
        match view_key(settings.view@) {
            Some(_) => match self.viewed_block(settings) {
                Some(i) => entities_vertices(
                    self.blocks@[i].entities@,
                    self.blocks@[i].color_spec(settings),
                    settings,
                    Vertex { x: 0, y: 0 },
                    t,
                ),
                None => Seq::empty(),
            },
            None => blocks_vertices(self.blocks@, self.entities@, settings, t),
        }
    }

    /// The indices of a drawing pass, numbered from 0.
    pub open spec fn scene_indices(&self, settings: &Settings) -> Seq<u32> {
        match view_key(settings.view@) {
            Some(_) => match self.viewed_block(settings) {
                Some(i) => entities_indices(self.blocks@[i].entities@, settings, 0),
                None => Seq::empty(),
            },
            None => blocks_indices(self.blocks@, settings, 0),
        }
    }

    /// Appends a drawing pass to the buffers, with indices from 0, and says
    /// whether it did: a pass whose indices would reach the sentinel is not
    /// drawn, and the buffers stay as they were.
    pub fn update_draw_sequence(
        &self,
        settings: &Settings,
        vertex_buffer: &mut VertexBuffer,
        index_buffer: &mut IndexBuffer,
    ) -> (r: bool)
        requires
            self.wf(),
            settings.wf(),
        ensures
            r == (self.scene_count(settings) < PRIMITIVE_RESTART),
            r ==> final(vertex_buffer).buffer@ == old(vertex_buffer).buffer@ + self.scene_vertices(settings),
            r ==> final(index_buffer).buffer@ == old(index_buffer).buffer@ + self.scene_indices(settings),
            !r ==> final(vertex_buffer).buffer@ == old(vertex_buffer).buffer@,
            !r ==> final(index_buffer).buffer@ == old(index_buffer).buffer@,
    {
        let t = settings.get_drawing_pass_parameters();
        let mut last_index: u32 = 0;
        match view_as_block_key(&settings.view) {
            Some(key) => {
                let found = self.block_in_pattern(&key);
                match found {
                    Some(i) => {
                        proof {
                            assert(encode_utf8(self.blocks@[i as int].name@) == view_key(settings.view@)->0);
                            let j = self.viewed_block(settings)->0;
                            assert(encode_utf8(self.blocks@[j].name@) == encode_utf8(key@));
                            assert(decode_utf8(encode_utf8(self.blocks@[j].name@)) == self.blocks@[j].name@) by {
                                vstd::utf8::encode_utf8_decode_utf8(self.blocks@[j].name@);
                            }
                            vstd::utf8::encode_utf8_decode_utf8(key@);
                            assert(names(self.blocks@)[j] == names(self.blocks@)[i as int]);
                            assert(j == i);
                        }
                        let b = &self.blocks[i];
                        let c = b.drawn_count(settings);
                        if c == PRIMITIVE_RESTART {
                            return false;
                        }
                        proof {
                            assert(self.blocks@[i as int].wf());
                        }
                        b.update_draw_sequence(
                            &Vertex { x: 0, y: 0 },
                            settings,
                            &t,
                            &mut last_index,
                            vertex_buffer,
                            index_buffer,
                        );
                        true
                    },
                    None => {
                        proof {
                            assert forall|j: int| 0 <= j < self.blocks@.len() implies encode_utf8(
                                #[trigger] self.blocks@[j].name@,
                            ) != view_key(settings.view@)->0 by {
                                assert(names(self.blocks@)[j] == self.blocks@[j].name@);
                                if encode_utf8(self.blocks@[j].name@) == encode_utf8(key@) {
                                    vstd::utf8::encode_utf8_decode_utf8(key@);
                                    vstd::utf8::encode_utf8_decode_utf8(self.blocks@[j].name@);
                                }
                            }
                            assert(self.scene_vertices(settings) =~= Seq::<VertexRecord>::empty());
                            assert(self.scene_indices(settings) =~= Seq::<u32>::empty());
                            assert(vertex_buffer.buffer@ =~= old(vertex_buffer).buffer@ + Seq::<VertexRecord>::empty());
                            assert(index_buffer.buffer@ =~= old(index_buffer).buffer@ + Seq::<u32>::empty());
                        }
                        true
                    },
                }
            },
            None => {
                let ghost bs = self.blocks@;
                let n = self.blocks.len();
                let mut total: u32 = 0;
                let mut i: usize = 0;
                proof {
                    assert(bs.subrange(0, 0) =~= Seq::<Block>::empty());
                }
                while i < n
                    invariant
                        n == bs.len(),
                        bs == self.blocks@,
                        0 <= i <= n,
                        total == (if blocks_count(bs.subrange(0, i as int), settings) < PRIMITIVE_RESTART {
                            blocks_count(bs.subrange(0, i as int), settings)
                        } else {
                            PRIMITIVE_RESTART as nat
                        }),
                    decreases n - i,
                {
                    proof {
                        assert(bs.subrange(0, i as int + 1).drop_last() =~= bs.subrange(0, i as int));
                        assert(bs.subrange(0, i as int + 1).last() == bs[i as int]);
                    }
                    let c = self.blocks[i].drawn_count(settings);
                    if total == PRIMITIVE_RESTART || c >= PRIMITIVE_RESTART - total {
                        total = PRIMITIVE_RESTART;
                    } else {
                        total = total + c;
                    }
                    i = i + 1;
                }
                proof {
                    assert(bs.subrange(0, n as int) =~= bs);
                }
                if total == PRIMITIVE_RESTART {
                    return false;
                }
                let ghost vb0 = vertex_buffer.buffer@;
                let ghost ib0 = index_buffer.buffer@;
                let mut i: usize = 0;
                while i < n
                    invariant
                        n == bs.len(),
                        bs == self.blocks@,
                        self.wf(),
                        t.wf(),
                        t == settings.transform_spec(),
                        0 <= i <= n,
                        blocks_count(bs, settings) < PRIMITIVE_RESTART,
                        last_index == blocks_count(bs.subrange(0, i as int), settings),
                        vertex_buffer.buffer@ == vb0 + blocks_vertices(bs.subrange(0, i as int), self.entities@, settings, t),
                        index_buffer.buffer@ == ib0 + blocks_indices(bs.subrange(0, i as int), settings, 0),
                    decreases n - i,
                {
                    let ghost next = bs.subrange(0, i as int + 1);
                    proof {
                        assert(next.drop_last() =~= bs.subrange(0, i as int));
                        assert(next.last() == bs[i as int]);
                        lemma_blocks_count_prefix(bs, settings, i as int + 1);
                        assert(bs[i as int].wf());
                    }
                    let b = &self.blocks[i];
                    let o = self.get_offset_for_block(&b.name);
                    b.update_draw_sequence(&o, settings, &t, &mut last_index, vertex_buffer, index_buffer);
                    proof {
                        assert(vertex_buffer.buffer@ =~= vb0 + blocks_vertices(next, self.entities@, settings, t));
                        assert(index_buffer.buffer@ =~= ib0 + blocks_indices(next, settings, 0));
                    }
                    i = i + 1;
                }
                proof {
                    assert(bs.subrange(0, n as int) =~= bs);
                }
                true
            },
        }
    }

    /// In a view of one block, moves the entities of the first highlighted
    /// block by `offset` (when its box stays in range). Otherwise moves the
    /// placement of every highlighted block by `offset` (each placement that
    /// stays in range).
    pub fn offset_highlighted_objects(&mut self, offset: &Vertex, view: &String)
        requires
            old(self).wf(),
        ensures
            final(self).wf(),
            offset_applied(final(self), old(self), *offset, view_key(view@)),
    {
        let single = view_as_block_key(view).is_some();
        if single {
            match self.first_highlighted_index() {
                Some(i) => {
                    if self.blocks[i].bounding_box.can_shift_exec(offset) {
                        proof {
                            assert(self.blocks@[i as int].wf());
                        }
                        let ghost before = self.blocks@;
                        self.blocks[i].offset_entities(offset);
                        proof {
                            self.lemma_wf_after_block_change(before, i as int);
                        }
                    }
                },
                None => {},
            }
            return;
        }
        let n = self.entities.len();
        let mut k: usize = 0;
        while k < n
            invariant
                n == self.entities@.len(),
                n == old(self).entities@.len(),
                0 <= k <= n,
                self.blocks@ == old(self).blocks@,
                old(self).wf(),
                forall|m: int|
                    0 <= m < n ==> (#[trigger] self.entities@[m]).name@ == old(self).entities@[m].name@
                        && self.entities@[m].layer == old(self).entities@[m].layer,
                forall|m: int| k <= m < n ==> (#[trigger] self.entities@[m]).position == old(self).entities@[m].position,
                forall|m: int|
                    0 <= m < k ==> (#[trigger] self.entities@[m]).position == if highlighted_name(
                        old(self).blocks@,
                        old(self).entities@[m].name@,
                    ) && old(self).entities@[m].position.can_add(*offset) {
                        old(self).entities@[m].position.plus(*offset)
                    } else {
                        old(self).entities@[m].position
                    },
            decreases n - k,
        {
            let hl = self.name_highlighted(&self.entities[k].name);
            let p = self.entities[k].position;
            let fits = p.x as i128 + offset.x as i128 >= i64::MIN as i128 && p.x as i128 + offset.x as i128
                <= i64::MAX as i128 && p.y as i128 + offset.y as i128 >= i64::MIN as i128 && p.y as i128
                + offset.y as i128 <= i64::MAX as i128;
            if hl && fits {
                self.entities[k].position = Vertex { x: p.x + offset.x, y: p.y + offset.y };
            }
            k = k + 1;
        }
        proof {
            assert forall|m: int| 0 <= m < self.entities@.len() implies names(self.blocks@).contains(
                (#[trigger] self.entities@[m]).name@,
            ) by {
                assert(names(old(self).blocks@).contains(old(self).entities@[m].name@));
            }
        }
    }

    /// In a view of one block, scales the entities of the first highlighted
    /// block about `anchor`. Otherwise scales every highlighted block about
    /// `anchor` taken into the block's local space. A block whose result would
    /// leave the range is left as it is.
    pub fn scale_highlighted_objects(&mut self, scale: &Scale, anchor: &Vertex, view: &String)
        requires
            old(self).wf(),
            scale.wf(),
        ensures
            final(self).wf(),
            scale_applied(final(self), old(self), *scale, *anchor, view_key(view@)),
    {
        let single = view_as_block_key(view).is_some();
        if single {
            match self.first_highlighted_index() {
                Some(i) => {
                    if self.blocks[i].bounding_box.can_scale_exec(scale, anchor) {
                        proof {
                            assert(self.blocks@[i as int].wf());
                        }
                        let ghost before = self.blocks@;
                        self.blocks[i].scale_entities(scale, anchor);
                        proof {
                            self.lemma_wf_after_block_change(before, i as int);
                        }
                    }
                },
                None => {},
            }
            return;
        }
        let n = self.blocks.len();
        let mut i: usize = 0;
        while i < n
            invariant
                n == self.blocks@.len(),
                n == old(self).blocks@.len(),
                0 <= i <= n,
                scale.wf(),
                self.entities@ == old(self).entities@,
                old(self).wf(),
                self.wf(),
                forall|j: int| i <= j < n ==> #[trigger] self.blocks@[j] == old(self).blocks@[j],
                forall|j: int|
                    0 <= j < i ==> {
                        let b = old(self).blocks@[j];
                        let o = placement_of(old(self).entities@, b.name@);
                        let a = local_point(*anchor, o);
                        if b.highlighted && local_point_fits(*anchor, o)
                            && b.bounding_box.can_scale(*scale, a) {
                            block_reshaped(#[trigger] self.blocks@[j], b, |v: Vertex| v.scaled(*scale, a))
                        } else {
                            self.blocks@[j] == b
                        }
                    },
            decreases n - i,
        {
            proof {
                assert(self.blocks@[i as int] == old(self).blocks@[i as int]);
            }
            if self.blocks[i].highlighted {
                let o = self.get_offset_for_block(&self.blocks[i].name);
                let ax = anchor.x as i128 - o.x as i128;
                let ay = anchor.y as i128 - o.y as i128;
                let lo = i64::MIN as i128;
                let hi = i64::MAX as i128;
                let fits = lo <= ax && ax <= hi && lo <= ay && ay <= hi;
                let local = if fits { Vertex { x: ax as i64, y: ay as i64 } } else { *anchor };
                if fits && self.blocks[i].bounding_box.can_scale_exec(scale, &local) {
                    proof {
                        assert(self.blocks@[i as int].wf());
                    }
                    let ghost before = self.blocks@;
                    self.blocks[i].scale_entities(scale, &local);
                    proof {
                        self.lemma_wf_after_block_change(before, i as int);
                    }
                }
            }
            i = i + 1;
        }
    }

    /// In a view of one block, maps the entities of the first highlighted
    /// block by `rot_offset + v * rotation`. Otherwise maps every highlighted
    /// block by that rotation taken into the block's local space. A block
    /// whose result would leave the range is left as it is.
    pub fn rotate_highlights(&mut self, rotation: &Rotation, rot_offset: &Vertex, view: &String)
        requires
            old(self).wf(),
            rotation.wf(),
        ensures
            final(self).wf(),
            rotate_applied(final(self), old(self), *rotation, *rot_offset, view_key(view@)),
    {
        let single = view_as_block_key(view).is_some();
        if single {
            match self.first_highlighted_index() {
                Some(i) => {
                    if self.blocks[i].bounding_box.can_rotate_exec(rotation, rot_offset) {
                        proof {
                            assert(self.blocks@[i as int].wf());
                        }
                        let ghost before = self.blocks@;
                        self.blocks[i].rotate_entities(rotation, rot_offset);
                        proof {
                            self.lemma_wf_after_block_change(before, i as int);
                        }
                    }
                },
                None => {},
            }
            return;
        }
        let n = self.blocks.len();
        let mut i: usize = 0;
        while i < n
            invariant
                n == self.blocks@.len(),
                n == old(self).blocks@.len(),
                0 <= i <= n,
                rotation.wf(),
                self.entities@ == old(self).entities@,
                old(self).wf(),
                self.wf(),
                forall|j: int| i <= j < n ==> #[trigger] self.blocks@[j] == old(self).blocks@[j],
                forall|j: int|
                    0 <= j < i ==> {
                        let b = old(self).blocks@[j];
                        let o = placement_of(old(self).entities@, b.name@);
                        let l = local_rot_offset(*rotation, *rot_offset, o);
                        if b.highlighted && local_rot_fits(*rotation, *rot_offset, o)
                            && b.bounding_box.can_rotate(*rotation, l) {
                            block_reshaped(#[trigger] self.blocks@[j], b, |v: Vertex| v.rotated(*rotation, l))
                        } else {
                            self.blocks@[j] == b
                        }
                    },
            decreases n - i,
        {
            proof {
                assert(self.blocks@[i as int] == old(self).blocks@[i as int]);
            }
            if self.blocks[i].highlighted {
                let o = self.get_offset_for_block(&self.blocks[i].name);
                let (rx, ry) = rotate_coords(rotation, o.x as i128, o.y as i128);
                proof {
                    lemma_rotation_bound(*rotation, o.x as int, o.y as int, 0x8000_0000_0000_0000);
                }
                let lx = rot_offset.x as i128 - o.x as i128 + rx;
                let ly = rot_offset.y as i128 - o.y as i128 + ry;
                let lo = i64::MIN as i128;
                let hi = i64::MAX as i128;
                let fits = lo <= lx && lx <= hi && lo <= ly && ly <= hi;
                let local = if fits { Vertex { x: lx as i64, y: ly as i64 } } else { *rot_offset };
                if fits && self.blocks[i].bounding_box.can_rotate_exec(rotation, &local) {
                    proof {
                        assert(self.blocks@[i as int].wf());
                    }
                    let ghost before = self.blocks@;
                    self.blocks[i].rotate_entities(rotation, &local);
                    proof {
                        self.lemma_wf_after_block_change(before, i as int);
                    }
                }
            }
            i = i + 1;
        }
    }

    /// Every layer used by a block or an entity, each once, ascending.
    pub fn get_all_layers(&self) -> (r: Vec<i32>)
        ensures
            r@.to_multiset() == pattern_layers(self.blocks@).to_multiset(),
            ascending(r@),
            pattern_layers(self.blocks@).no_duplicates(),
            forall|x: i32|
                pattern_layers(self.blocks@).contains(x) <==> exists|i: int|
                    0 <= i < self.blocks@.len() && (#[trigger] self.blocks@[i].layers()).contains(x),
    {
        let mut out: Vec<i32> = Vec::new();
        let n = self.blocks.len();
        let mut i: usize = 0;
        proof {
            assert(self.blocks@.subrange(0, 0) =~= Seq::<Block>::empty());
        }
        while i < n
            invariant
                n == self.blocks@.len(),
                0 <= i <= n,
                out@ == pattern_layers(self.blocks@.subrange(0, i as int)),
            decreases n - i,
        {
            proof {
                assert(self.blocks@.subrange(0, i as int + 1).drop_last() =~= self.blocks@.subrange(0, i as int));
            }
            self.blocks[i].get_all_layers(&mut out);
            i = i + 1;
        }
        proof {
            assert(self.blocks@.subrange(0, n as int) =~= self.blocks@);
            lemma_pattern_layers(self.blocks@);
        }
        sort_layers(&mut out);
        out
    }

    /// The names of all blocks, ascending.
    pub fn get_all_block_names(&self) -> (r: Vec<String>)
        ensures
            string_views(r@).to_multiset() == names(self.blocks@).to_multiset(),
            strings_ascending(r@),
    {
        let mut out: Vec<String> = Vec::new();
        let n = self.blocks.len();
        let mut i: usize = 0;
        while i < n
            invariant
                n == self.blocks@.len(),
                0 <= i <= n,
                string_views(out@) == names(self.blocks@.subrange(0, i as int)),
            decreases n - i,
        {
            let nm = self.blocks[i].name.clone();
            let ghost prev = out@;
            out.push(nm);
            proof {
                assert(out@ == prev.push(nm));
                assert(string_views(out@) =~= string_views(prev).push(nm@));
                assert(names(self.blocks@.subrange(0, i as int + 1)) =~= names(self.blocks@.subrange(0, i as int)).push(self.blocks@[i as int].name@));
                assert(string_views(out@) =~= names(self.blocks@.subrange(0, i as int + 1)));
            }
            i = i + 1;
        }
        proof {
            assert(self.blocks@.subrange(0, n as int) =~= self.blocks@);
        }
        sort_names(&mut out);
        out
    }

    /// The blocks whose placed box meets `bbox`, and the union of their boxes.
    /// A view of one block restricts the query to that block, at the origin.
    pub fn find_blocks_with_bbox(&self, bbox: &BoundingBox, view: &String) -> (r: (
        Vec<String>,
        Option<WorldBox>,
    ))
        ensures
            key_names(r.0@) == bbox_scan(self.blocks@, self.entities@, *bbox, view_key(view@)).0,
            r.1 == bbox_scan(self.blocks@, self.entities@, *bbox, view_key(view@)).1,
    {
        let key = view_as_block_key(view);
        let ghost k = view_key(view@);
        let mut found: Vec<String> = Vec::new();
        let mut u: Option<WorldBox> = None;
        let n = self.blocks.len();
        let mut i: usize = 0;
        while i < n
            invariant
                n == self.blocks@.len(),
                0 <= i <= n,
                k == view_key(view@),
                key is Some <==> k is Some,
                key matches Some(kk) ==> encode_utf8(kk@) == k->0,
                key_names(found@) == bbox_scan(self.blocks@.subrange(0, i as int), self.entities@, *bbox, k).0,
                u == bbox_scan(self.blocks@.subrange(0, i as int), self.entities@, *bbox, k).1,
            decreases n - i,
        {
            proof {
                assert(self.blocks@.subrange(0, i as int + 1).drop_last() =~= self.blocks@.subrange(0, i as int));
            }
            let b = &self.blocks[i];
            let considered = match &key {
                Some(kk) => {
                    proof {
                        vstd::utf8::encode_utf8_decode_utf8(kk@);
                        vstd::utf8::encode_utf8_decode_utf8(b.name@);
                    }
                    b.name == *kk
                },
                None => true,
            };
            let o = if key.is_some() {
                Vertex { x: 0, y: 0 }
            } else {
                self.get_offset_for_block(&b.name)
            };
            let w = b.bounding_box.place(&o);
            if considered && w.intersects(bbox) {
                let nm = b.name.clone();
                let ghost prev = found@;
                found.push(nm);
                proof {
                    assert(key_names(found@) =~= key_names(prev).push(nm@));
                }
                u = match u {
                    Some(x) => Some(x.union(&w)),
                    None => Some(w),
                };
            }
            i = i + 1;
        }
        proof {
            assert(self.blocks@.subrange(0, n as int) =~= self.blocks@);
        }
        (found, u)
    }

    /// The box around the highlighted objects, in world space: in a view of
    /// one block, the first highlighted block's own box; otherwise the union
    /// of the placed boxes of all highlighted blocks.
    pub fn get_highlighted_bounding_box(&self, view: &String) -> (r: Option<WorldBox>)
        ensures
            view_key(view@) is Some ==> r == match first_highlighted(self.blocks@) {
                Some(i) => Some(self.blocks@[i].bounding_box.placed(Vertex { x: 0, y: 0 })),
                None => None::<WorldBox>,
            },
            view_key(view@) is None ==> r == highlighted_union(self.blocks@, self.entities@),
    {
        if view_as_block_key(view).is_some() {
            return match self.first_highlighted_index() {
                Some(i) => Some(self.blocks[i].bounding_box.place(&Vertex { x: 0, y: 0 })),
                None => None,
            };
        }
        let mut u: Option<WorldBox> = None;
        let n = self.blocks.len();
        let mut i: usize = 0;
        while i < n
            invariant
                n == self.blocks@.len(),
                0 <= i <= n,
                u == highlighted_union(self.blocks@.subrange(0, i as int), self.entities@),
            decreases n - i,
        {
            proof {
                assert(self.blocks@.subrange(0, i as int + 1).drop_last() =~= self.blocks@.subrange(0, i as int));
            }
            let b = &self.blocks[i];
            if b.highlighted {
                let o = self.get_offset_for_block(&b.name);
                let w = b.bounding_box.place(&o);
                u = match u {
                    Some(x) => Some(x.union(&w)),
                    None => Some(w),
                };
            }
            i = i + 1;
        }
        proof {
            assert(self.blocks@.subrange(0, n as int) =~= self.blocks@);
        }
        u
    }

    /// Whether a highlighted block is named `name`.
    fn name_highlighted(&self, name: &String) -> (r: bool)
        ensures
            r == highlighted_name(self.blocks@, name@),
    {
        let n = self.blocks.len();
        let mut i: usize = 0;
        while i < n
            invariant
                n == self.blocks@.len(),
                0 <= i <= n,
                forall|j: int| 0 <= j < i ==> !(self.blocks@[j].name@ == name@ && self.blocks@[j].highlighted),
            decreases n - i,
        {
            if self.blocks[i].highlighted && self.blocks[i].name == *name {
                return true;
            }
            i = i + 1;
        }
        proof {
            assert forall|j: int| 0 <= j < n implies !(#[trigger] self.blocks@[j].name@ == name@ && self.blocks@[j].highlighted) by {}
        }
        false
    }

    fn first_highlighted_index(&self) -> (r: Option<usize>)
        ensures
            r matches Some(i) ==> Some(i as int) == first_highlighted(self.blocks@) && i < self.blocks@.len(),
            r is None ==> first_highlighted(self.blocks@) is None,
    {
        let n = self.blocks.len();
        let mut i: usize = 0;
        proof {
            assert(self.blocks@.subrange(0, 0) =~= Seq::<Block>::empty());
        }
        while i < n
            invariant
                n == self.blocks@.len(),
                0 <= i <= n,
                first_highlighted(self.blocks@.subrange(0, i as int)) is None,
            decreases n - i,
        {
            proof {
                assert(self.blocks@.subrange(0, i as int + 1).drop_last() =~= self.blocks@.subrange(0, i as int));
            }
            if self.blocks[i].highlighted {
                proof {
                    lemma_first_highlighted_prefix(self.blocks@, i as int + 1);
                }
                return Some(i);
            }
            i = i + 1;
        }
        proof {
            assert(self.blocks@.subrange(0, n as int) =~= self.blocks@);
        }
        None
    }

    /// Changing one block while keeping its name keeps the pattern well formed.
    proof fn lemma_wf_after_block_change(&self, before: Seq<Block>, i: int)
        requires
            0 <= i < before.len(),
            self.blocks@.len() == before.len(),
            self.blocks@[i].wf(),
            self.blocks@[i].name@ == before[i].name@,
            forall|j: int| 0 <= j < before.len() && j != i ==> self.blocks@[j] == before[j],
            forall|j: int| 0 <= j < before.len() ==> (#[trigger] before[j]).wf(),
            names(before).no_duplicates(),
            forall|k: int|
                0 <= k < self.entities@.len() ==> names(before).contains((#[trigger] self.entities@[k]).name@),
        ensures
            self.wf(),
    {
        assert(names(self.blocks@) =~= names(before));
        assert forall|j: int| 0 <= j < self.blocks@.len() implies (#[trigger] self.blocks@[j]).wf() by {
            if j != i {
                assert(self.blocks@[j] == before[j]);
            }
        }
    }

    /// Builds the pattern from a decoded document. Records that fail their
    /// checks are skipped one by one; the rest still load.
    pub fn new(document: &Document) -> (r: Pattern)
        ensures
            r.wf(),
            r.blocks@.len() == kept_blocks(document.blocks@).len(),
            forall|i: int|
                0 <= i < r.blocks@.len() ==> block_from(
                    #[trigger] r.blocks@[i],
                    kept_blocks(document.blocks@)[i],
                ),
            r.entities@.len() == kept_inserts(
                document.entities@,
                block_names_of(kept_blocks(document.blocks@)),
            ).len(),
            forall|k: int|
                0 <= k < r.entities@.len() ==> insert_from(
                    #[trigger] r.entities@[k],
                    kept_inserts(document.entities@, block_names_of(kept_blocks(document.blocks@)))[k],
                ),
    {
        let mut blocks: Vec<Block> = Vec::new();
        let nb = document.blocks.len();
        let ghost bs = document.blocks@;
        let mut i: usize = 0;
        while i < nb
            invariant
                nb == bs.len(),
                bs == document.blocks@,
                0 <= i <= nb,
                blocks@.len() == kept_blocks(bs.subrange(0, i as int)).len(),
                names(blocks@) == block_names_of(kept_blocks(bs.subrange(0, i as int))),
                names(blocks@).no_duplicates(),
                forall|j: int|
                    0 <= j < blocks@.len() ==> block_from(
                        #[trigger] blocks@[j],
                        kept_blocks(bs.subrange(0, i as int))[j],
                    ),
            decreases nb - i,
        {
            let rec = &document.blocks[i];
            let ghost prev = kept_blocks(bs.subrange(0, i as int));
            proof {
                assert(bs.subrange(0, i as int + 1).drop_last() =~= bs.subrange(0, i as int));
                assert(bs.subrange(0, i as int + 1).last() == bs[i as int]);
            }
            let layer = parse_layer(rec.layer.as_str());
            if let Some(l) = layer {
                if !has_block(&blocks, &rec.name) {
                    let mut block = Block::new(rec.name.clone(), l, &rec.centroid);
                    let ne = rec.entities.len();
                    let mut j: usize = 0;
                    while j < ne
                        invariant
                            ne == rec.entities@.len(),
                            0 <= j <= ne,
                            block.wf(),
                            block.name@ == rec.name@,
                            block.layer == l,
                            block.centroid == rec.centroid,
                            !block.highlighted,
                            block.entities@.len() == kept_records(rec.entities@.subrange(0, j as int)).len(),
                            forall|k: int|
                                0 <= k < block.entities@.len() ==> entity_from(
                                    #[trigger] block.entities@[k],
                                    kept_records(rec.entities@.subrange(0, j as int))[k],
                                ),
                        decreases ne - j,
                    {
                        let ghost before = block.entities@;
                        proof {
                            assert(rec.entities@.subrange(0, j as int + 1).drop_last() =~= rec.entities@.subrange(0, j as int));
                            assert(rec.entities@.subrange(0, j as int + 1).last() == rec.entities@[j as int]);
                        }
                        add_record(&mut block, &rec.entities[j]);
                        proof {
                            let kr = kept_records(rec.entities@.subrange(0, j as int + 1));
                            assert forall|k: int| 0 <= k < block.entities@.len() implies entity_from(
                                #[trigger] block.entities@[k],
                                kr[k],
                            ) by {
                                if k < before.len() {
                                    assert(block.entities@[k] == before[k]);
                                }
                            }
                        }
                        j = j + 1;
                    }
                    proof {
                        assert(rec.entities@.subrange(0, ne as int) =~= rec.entities@);
                    }
                    let ghost before = blocks@;
                    blocks.push(block);
                    proof {
                        let k = kept_blocks(bs.subrange(0, i as int + 1));
                        assert(k == prev.push(bs[i as int]));
                        assert(names(blocks@) =~= names(before).push(rec.name@));
                        assert forall|a: int, b: int|
                            0 <= a < b < names(blocks@).len() implies names(blocks@)[a] != names(blocks@)[b] by {
                            if b == names(blocks@).len() - 1 {
                                assert(names(before)[a] == names(blocks@)[a]);
                            } else {
                                assert(names(before)[a] == names(blocks@)[a]);
                                assert(names(before)[b] == names(blocks@)[b]);
                            }
                        }
                        assert(names(blocks@) =~= block_names_of(k));
                        assert forall|j: int| 0 <= j < blocks@.len() implies block_from(
                            #[trigger] blocks@[j],
                            k[j],
                        ) by {
                            if j < before.len() {
                                assert(blocks@[j] == before[j]);
                            }
                        }
                    }
                }
            }
            i = i + 1;
        }
        proof {
            assert(bs.subrange(0, nb as int) =~= bs);
        }
        let ghost kb = kept_blocks(bs);
        let mut inserts: Vec<Insert> = Vec::new();
        let ni = document.entities.len();
        let ghost is = document.entities@;
        let mut k: usize = 0;
        while k < ni
            invariant
                ni == is.len(),
                is == document.entities@,
                0 <= k <= ni,
                names(blocks@) == block_names_of(kb),
                inserts@.len() == kept_inserts(is.subrange(0, k as int), block_names_of(kb)).len(),
                forall|m: int|
                    0 <= m < inserts@.len() ==> insert_from(
                        #[trigger] inserts@[m],
                        kept_inserts(is.subrange(0, k as int), block_names_of(kb))[m],
                    ),
                forall|m: int|
                    0 <= m < inserts@.len() ==> names(blocks@).contains((#[trigger] inserts@[m]).name@),
            decreases ni - k,
        {
            let rec = &document.entities[k];
            proof {
                assert(is.subrange(0, k as int + 1).drop_last() =~= is.subrange(0, k as int));
                assert(is.subrange(0, k as int + 1).last() == is[k as int]);
            }
            if rec.entity_type == "INSERT".to_owned() && has_block(&blocks, &rec.name) {
                if let Some(l) = parse_layer(rec.layer.as_str()) {
                    let ghost before = inserts@;
                    inserts.push(Insert::new(rec.name.clone(), l, &rec.position));
                    proof {
                        let kk = kept_inserts(is.subrange(0, k as int + 1), block_names_of(kb));
                        assert forall|m: int| 0 <= m < inserts@.len() implies insert_from(
                            #[trigger] inserts@[m],
                            kk[m],
                        ) by {
                            if m < before.len() {
                                assert(inserts@[m] == before[m]);
                            }
                        }
                        assert forall|m: int| 0 <= m < inserts@.len() implies names(blocks@).contains(
                            (#[trigger] inserts@[m]).name@,
                        ) by {
                            if m < before.len() {
                                assert(inserts@[m] == before[m]);
                            }
                        }
                    }
                }
            }
            k = k + 1;
        }
        proof {
            assert(is.subrange(0, ni as int) =~= is);
        }
        Pattern { blocks, entities: inserts }
    }
}

/// A selection replaces the one before it: after selecting `first` and then
/// `second`, a block is highlighted exactly when `second` names it, whatever
/// `first` held.
pub proof fn law_selection_is_exclusive(
    p0: &Pattern,
    p1: &Pattern,
    p2: &Pattern,
    first: Seq<Seq<char>>,
    second: Seq<Seq<char>>,
)
    requires
        p0.wf(),
        p1.selected(p0, first),
        p2.selected(p1, second),
    ensures
        p2.blocks@.len() == p0.blocks@.len(),
        forall|i: int|
            0 <= i < p0.blocks@.len() ==> ((#[trigger] p2.blocks@[i]).highlighted <==> second.contains(
                p0.blocks@[i].name@,
            )),
        forall|i: int| 0 <= i < p0.blocks@.len() ==> #[trigger] p2.blocks@[i].name@ == p0.blocks@[i].name@,
{
    assert forall|i: int| 0 <= i < p0.blocks@.len() implies #[trigger] p2.blocks@[i].name@ == p0.blocks@[i].name@ by {
        assert(same_block_shape(p2.blocks@[i], p1.blocks@[i]));
        assert(same_block_shape(p1.blocks@[i], p0.blocks@[i]));
    }
    assert forall|i: int| 0 <= i < p0.blocks@.len() implies ((#[trigger] p2.blocks@[i]).highlighted <==> second.contains(
        p0.blocks@[i].name@,
    )) by {
        assert(same_block_shape(p2.blocks@[i], p1.blocks@[i]));
        assert(same_block_shape(p1.blocks@[i], p0.blocks@[i]));
        assert(flagged(p2.blocks@[i], second.contains(p2.blocks@[i].name@)));
    }
}

} // verus!
