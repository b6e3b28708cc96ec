use pattern_engine::bounding_box::{
    construct_from_vectors, contains_point, from_array, intersect, offset_bbox, scale_bbox, union,
};
use pattern_engine::{BoundingBox, Entity, EntityTypes, Rotation, Scale, Vertex};

fn v(x: i64, y: i64) -> Vertex {
    Vertex { x, y }
}

fn bb(min_x: i64, max_x: i64, min_y: i64, max_y: i64) -> BoundingBox {
    BoundingBox { min_x, max_x, min_y, max_y }
}

#[test]
fn compute_of_empty_set_is_zero_box() {
    assert_eq!(from_array(&vec![]), bb(0, 0, 0, 0));
}

#[test]
fn compute_of_vertices_is_tight() {
    let r = from_array(&vec![v(3, -2), v(-1, 7), v(5, 0)]);
    assert_eq!(r, bb(-1, 5, -2, 7));
    assert!(r.min_x <= r.max_x && r.min_y <= r.max_y);
}

#[test]
fn compute_of_single_vertex_away_from_origin_is_not_zero() {
    assert_ne!(from_array(&vec![v(4, 4)]), bb(0, 0, 0, 0));
}

#[test]
fn contains_point_counts_bounds_and_padding() {
    let b = bb(0, 10, 0, 10);
    assert!(contains_point(&b, &v(10, 10), 0));
    assert!(!contains_point(&b, &v(11, 5), 0));
    assert!(contains_point(&b, &v(11, 5), 1));
    assert!(contains_point(&b, &v(-2, -2), 2));
    assert!(!contains_point(&b, &v(-3, 0), 2));
}

#[test]
fn intersect_is_symmetric_and_inclusive() {
    let a = bb(0, 5, 0, 5);
    let b = bb(5, 9, 5, 9);
    let c = bb(6, 9, 0, 1);
    assert!(intersect(&a, &b) && intersect(&b, &a));
    assert!(!intersect(&a, &c) && !intersect(&c, &a));
}

#[test]
fn union_holds_every_corner_of_both() {
    let a = bb(0, 2, 1, 3);
    let b = bb(-4, -1, 5, 8);
    let u = union(&a, &b);
    assert_eq!(u, bb(-4, 2, 1, 8));
    for q in [a, b] {
        for (x, y) in [(q.min_x, q.min_y), (q.max_x, q.min_y), (q.min_x, q.max_y), (q.max_x, q.max_y)] {
            assert!(contains_point(&u, &v(x, y), 0));
        }
    }
}

#[test]
fn offset_then_back_is_identity() {
    let b = bb(-3, 4, 10, 12);
    let d = v(7, -9);
    let moved = offset_bbox(&b, &d);
    assert_eq!(moved, bb(4, 11, 1, 3));
    assert_eq!(offset_bbox(&moved, &v(-7, 9)), b);
}

#[test]
fn scale_sorts_bounds_again_after_a_flip() {
    let b = bb(1, 3, 2, 4);
    let flip_x = Scale { x: -2, y: 1, den: 1 };
    assert_eq!(scale_bbox(&b, &flip_x, &v(0, 0)), bb(-6, -2, 2, 4));
    let half = Scale { x: 1, y: 1, den: 2 };
    assert_eq!(scale_bbox(&bb(0, 8, -4, 4), &half, &v(2, 0)), bb(1, 5, -2, 2));
}

#[test]
fn construct_from_vectors_needs_two_coordinates() {
    assert_eq!(construct_from_vectors(&vec![5, 1], &vec![2, 9]), Some(bb(2, 5, 1, 9)));
    assert_eq!(construct_from_vectors(&vec![5], &vec![2, 9]), None);
    assert_eq!(construct_from_vectors(&vec![5, 1], &vec![2, 9, 0]), None);
}

fn entity(vs: Vec<Vertex>) -> Entity {
    Entity::new(EntityTypes::Polyline, 0, false, vs, 0, vec![0u8; 32], String::new())
}

#[test]
fn entity_offset_moves_vertices_and_box() {
    let mut e = entity(vec![v(0, 0), v(2, 3)]);
    e.offset_vertices(&v(10, -1));
    assert_eq!(e.vertices, vec![v(10, -1), v(12, 2)]);
    assert_eq!(e.bounding_box, bb(10, 12, -1, 2));
}

#[test]
fn entity_scale_keeps_box_equal_to_computed_box() {
    let mut e = entity(vec![v(1, 1), v(3, 5)]);
    e.scale_vertices(&Scale { x: -1, y: 2, den: 1 }, &v(1, 1));
    assert_eq!(e.vertices, vec![v(1, 1), v(-1, 9)]);
    assert_eq!(e.bounding_box, from_array(&e.vertices));
}

#[test]
fn entity_rotation_recomputes_box() {
    let quarter = Rotation { m00: 0, m01: 1, m10: -1, m11: 0, den: 1 };
    let mut e = entity(vec![v(1, 0), v(3, 2)]);
    e.rotate_vertices(&quarter, &v(0, 0));
    assert_eq!(e.vertices, vec![v(0, 1), v(-2, 3)]);
    assert_eq!(e.bounding_box, bb(-2, 0, 1, 3));
}

#[test]
fn rotation_about_center_and_back_is_identity() {
    let quarter = Rotation { m00: 0, m01: 1, m10: -1, m11: 0, den: 1 };
    let back = Rotation { m00: 0, m01: -1, m10: 1, m11: 0, den: 1 };
    let c = v(5, 5);
    // offset of a turn about c: c - c * r
    let off = |r: &Rotation| v(c.x - (c.x * r.m00 as i64 + c.y * r.m10 as i64), c.y - (c.x * r.m01 as i64 + c.y * r.m11 as i64));
    let start = vec![v(1, 2), v(7, -3), v(5, 5)];
    let mut e = entity(start.clone());
    e.rotate_vertices(&quarter, &off(&quarter));
    assert_ne!(e.vertices, start);
    e.rotate_vertices(&back, &off(&back));
    assert_eq!(e.vertices, start);
}

#[test]
fn scale_rounds_down() {
    let mut e = entity(vec![v(-3, 3)]);
    e.scale_vertices(&Scale { x: 1, y: 1, den: 2 }, &v(0, 0));
    assert_eq!(e.vertices, vec![v(-2, 1)]);
}

#[test]
fn rational_rotation_round_trip_stays_within_two_units() {
    // cos = 4/5, sin = 3/5 and its transpose
    let turn = Rotation { m00: 4, m01: 3, m10: -3, m11: 4, den: 5 };
    let back = Rotation { m00: 4, m01: -3, m10: 3, m11: 4, den: 5 };
    let start = vec![v(7, 2), v(-13, 29), v(100, -41)];
    let mut e = entity(start.clone());
    e.rotate_vertices(&turn, &v(0, 0));
    assert_eq!(e.vertices[0], v(4, 5));
    e.rotate_vertices(&back, &v(0, 0));
    for (a, b) in e.vertices.iter().zip(start.iter()) {
        assert!((a.x - b.x).abs() <= 2 && (a.y - b.y).abs() <= 2);
    }
    assert_eq!(e.vertices[0], v(6, 1));
}
