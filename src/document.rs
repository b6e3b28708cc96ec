use vstd::prelude::*;
use vstd::utf8::encode_utf8;

use crate::entity::{Entity, EntityTypes};
use crate::text::{decimal_i32, kind_of_tag, strip_hyphens};
use crate::vector::Vertex;

verus! {

/// One entity of a block as the decoded document gives it. Which optional
/// fields must be present depends on the type tag.
#[derive(Debug)]
pub struct EntityRecord {
    pub entity_type: String,
    pub layer: String,
    pub entity_index: String,
    pub position: Option<Vertex>,
    pub vertices: Option<Vec<Vertex>>,
    pub shape: Option<bool>,
    pub start_point: Option<Vertex>,
    pub text_height: Option<i64>,
    pub text: Option<String>,
}

/// A block of the decoded document.
#[derive(Debug)]
pub struct BlockRecord {
    pub name: String,
    pub entities: Vec<EntityRecord>,
    pub centroid: Vertex,
    pub layer: String,
}

/// A placement record of the decoded document.
#[derive(Debug)]
pub struct InsertRecord {
    pub entity_type: String,
    pub name: String,
    pub position: Vertex,
    pub layer: String,
}

/// The decoded document: blocks by name, in document order, and placements.
#[derive(Debug)]
pub struct Document {
    pub blocks: Vec<BlockRecord>,
    pub entities: Vec<InsertRecord>,
}

/// Whether a record yields an entity: its layer is an integer, its id has 32
/// bytes without hyphens, and the fields that its kind needs are present.
pub open spec fn record_ok(r: EntityRecord) -> bool {
    &&& decimal_i32(r.layer@) is Some
    &&& strip_hyphens(encode_utf8(r.entity_index@)).len() == 32
    &&& match kind_of_tag(r.entity_type@) {
        Some(EntityTypes::Point) => r.position is Some,
        Some(EntityTypes::Line) => r.vertices matches Some(vs) && vs@.len() == 2,
        Some(EntityTypes::Polyline) => r.vertices matches Some(vs) && vs@.len() >= 1,
        Some(EntityTypes::Text) => r.start_point is Some && r.text_height is Some && r.text is Some,
        _ => false,
    }
}

/// The vertices that an accepted record gives its entity.
pub open spec fn record_vertices(r: EntityRecord) -> Seq<Vertex> {
    match kind_of_tag(r.entity_type@) {
        Some(EntityTypes::Point) => seq![r.position->0],
        Some(EntityTypes::Text) => seq![r.start_point->0],
        _ => r.vertices->0@,
    }
}

/// `e` is the entity that the accepted record `r` describes, not highlighted.
pub open spec fn entity_from(e: Entity, r: EntityRecord) -> bool {
    let kind = kind_of_tag(r.entity_type@)->0;
    &&& e.wf()
    &&& e.entity_type == kind
    &&& e.layer == decimal_i32(r.layer@)->0
    &&& e.shape == (kind == EntityTypes::Polyline && r.shape == Some(true))
    &&& e.vertices@ == record_vertices(r)
    &&& e.text_height == (if kind == EntityTypes::Text { r.text_height->0 } else { 0 })
    &&& e.entity_index@ == strip_hyphens(encode_utf8(r.entity_index@))
    &&& e.text@ == (if kind == EntityTypes::Text { r.text->0@ } else { Seq::empty() })
    &&& !e.highlighted
}

/// The records of `rs` that yield an entity, in order.
pub open spec fn kept_records(rs: Seq<EntityRecord>) -> Seq<EntityRecord>
    decreases rs.len(),
{
    if rs.len() == 0 {
        Seq::empty()
    } else if record_ok(rs.last()) {
        kept_records(rs.drop_last()).push(rs.last())
    } else {
        kept_records(rs.drop_last())
    }
}

pub open spec fn block_names_of(bs: Seq<BlockRecord>) -> Seq<Seq<char>> {
    bs.map_values(|b: BlockRecord| b.name@)
}

/// The block records that become blocks, in order: those whose layer is an
/// integer, each name taken once.
pub open spec fn kept_blocks(bs: Seq<BlockRecord>) -> Seq<BlockRecord>
    decreases bs.len(),
{
    if bs.len() == 0 {
        Seq::empty()
    } else {
        let k = kept_blocks(bs.drop_last());
        if decimal_i32(bs.last().layer@) is Some && !block_names_of(k).contains(bs.last().name@) {
            k.push(bs.last())
        } else {
            k
        }
    }
}

/// Whether a placement record is kept: it is tagged `INSERT`, names a kept
/// block, and its layer is an integer.
pub open spec fn insert_ok(r: InsertRecord, names: Seq<Seq<char>>) -> bool {
    &&& r.entity_type@ == "INSERT"@
    &&& names.contains(r.name@)
    &&& decimal_i32(r.layer@) is Some
}

pub open spec fn kept_inserts(rs: Seq<InsertRecord>, names: Seq<Seq<char>>) -> Seq<InsertRecord>
    decreases rs.len(),
{
    if rs.len() == 0 {
        Seq::empty()
    } else if insert_ok(rs.last(), names) {
        kept_inserts(rs.drop_last(), names).push(rs.last())
    } else {
        kept_inserts(rs.drop_last(), names)
    }
}

} // verus!
