use pattern_engine::{
    hex_to_rgba, parse_entity_index, view_as_block_key, BlockRecord, Document, EntityRecord, Handle,
    IndexBuffer, InsertRecord, Pattern, Rgba, Rotation, Scale, Settings, Vertex, VertexBuffer,
    WorldBox, PRIMITIVE_RESTART,
};

const ID: &str = "550e8400-e29b-41d4-a716-446655440000";

fn v(x: i64, y: i64) -> Vertex {
    Vertex { x, y }
}

fn record(kind: &str, layer: &str) -> EntityRecord {
    EntityRecord {
        entity_type: kind.to_string(),
        layer: layer.to_string(),
        entity_index: ID.to_string(),
        position: None,
        vertices: None,
        shape: None,
        start_point: None,
        text_height: None,
        text: None,
    }
}

fn point(x: i64, y: i64, layer: &str) -> EntityRecord {
    let mut r = record("POINT", layer);
    r.position = Some(v(x, y));
    r
}

fn line(a: Vertex, b: Vertex, layer: &str) -> EntityRecord {
    let mut r = record("LINE", layer);
    r.vertices = Some(vec![a, b]);
    r
}

fn block(name: &str, layer: &str, entities: Vec<EntityRecord>) -> BlockRecord {
    BlockRecord { name: name.to_string(), entities, centroid: v(0, 0), layer: layer.to_string() }
}

fn insert(name: &str, x: i64, y: i64, layer: &str) -> InsertRecord {
    InsertRecord {
        entity_type: "INSERT".to_string(),
        name: name.to_string(),
        position: v(x, y),
        layer: layer.to_string(),
    }
}

/// One block "L-1" on layer 3 holding one point at its origin, placed at
/// (10, 5) on layer 0. Coordinates are in tenths.
fn single_point_document() -> Document {
    Document {
        blocks: vec![block("L-1", "3", vec![point(0, 0, "3")])],
        entities: vec![insert("L-1", 100, 50, "0")],
    }
}

#[test]
fn counts_of_single_point_document() {
    let p = Pattern::new(&single_point_document());
    assert_eq!(p.get_number_blocks(), 1);
    assert_eq!(p.get_number_inserts(), 1);
    assert_eq!(p.get_number_entities(), 1);
}

#[test]
fn point_query_finds_placed_block() {
    let p = Pattern::new(&single_point_document());
    assert_eq!(p.find_blocks_with_point(&v(100, 50), 5), vec!["L-1".to_string()]);
    assert_eq!(p.find_blocks_with_point(&v(10000, 10000), 5), Vec::<String>::new());
    assert_eq!(p.find_blocks_with_point(&v(104, 46), 5), vec!["L-1".to_string()]);
    assert_eq!(p.find_blocks_with_point(&v(106, 50), 5), Vec::<String>::new());
}

#[test]
fn id_with_hyphens_is_accepted_and_short_id_rejected() {
    let id = parse_entity_index(ID).unwrap();
    assert_eq!(id.len(), 32);
    assert_eq!(id, b"550e8400e29b41d4a716446655440000".to_vec());
    assert_eq!(parse_entity_index("bad-id"), None);
}

#[test]
fn invalid_records_are_dropped_one_by_one() {
    let mut bad_id = point(1, 1, "3");
    bad_id.entity_index = "bad-id".to_string();
    let short_line = {
        let mut r = record("LINE", "3");
        r.vertices = Some(vec![v(0, 0)]);
        r
    };
    let no_position = record("POINT", "3");
    let unknown = record("CIRCLE", "3");
    let lower_case = {
        let mut r = record("point", "3");
        r.position = Some(v(0, 0));
        r
    };
    let doc = Document {
        blocks: vec![
            block(
                "A",
                "1",
                vec![
                    point(0, 0, "x"),
                    bad_id,
                    short_line,
                    no_position,
                    unknown,
                    lower_case,
                    line(v(0, 0), v(4, 2), "+7"),
                ],
            ),
            block("B", "not a layer", vec![point(0, 0, "1")]),
            block("A", "2", vec![point(0, 0, "1")]),
        ],
        entities: vec![
            insert("A", 1, 1, "0"),
            insert("B", 1, 1, "0"),
            insert("missing", 1, 1, "0"),
            insert("A", 1, 1, "zero"),
            InsertRecord { entity_type: "POINT".to_string(), ..insert("A", 1, 1, "0") },
        ],
    };
    let p = Pattern::new(&doc);
    assert_eq!(p.get_number_blocks(), 1);
    assert_eq!(p.get_number_entities(), 1);
    assert_eq!(p.get_number_inserts(), 1);
    assert_eq!(p.blocks[0].layer, 1);
    assert_eq!(p.blocks[0].entities[0].layer, 7);
    assert_eq!(p.blocks[0].get_bounding_box(), pattern_engine::BoundingBox { min_x: 0, max_x: 4, min_y: 0, max_y: 2 });
}

#[test]
fn polyline_and_text_records_build_entities() {
    let mut poly = record("LWPOLYLINE", "2");
    poly.vertices = Some(vec![v(0, 0), v(3, 0), v(3, 3)]);
    poly.shape = Some(true);
    let mut text = record("TEXT", "2");
    text.start_point = Some(v(-1, -1));
    text.text_height = Some(12);
    text.text = Some("hem".to_string());
    let p = Pattern::new(&Document { blocks: vec![block("K", "0", vec![poly, text])], entities: vec![] });
    let b = &p.blocks[0];
    assert_eq!(b.entities.len(), 2);
    assert_eq!(b.entities[0].entity_type, pattern_engine::EntityTypes::Polyline);
    assert!(b.entities[0].shape);
    assert_eq!(b.entities[1].entity_type, pattern_engine::EntityTypes::Text);
    assert_eq!(b.entities[1].text, "hem");
    assert_eq!(b.entities[1].text_height, 12);
    assert_eq!(b.get_bounding_box(), pattern_engine::BoundingBox { min_x: -1, max_x: 3, min_y: -1, max_y: 3 });
}

fn two_blocks() -> Pattern {
    Pattern::new(&Document {
        blocks: vec![
            block("B2", "5", vec![line(v(0, 0), v(10, 10), "2")]),
            block("B1", "1", vec![point(0, 0, "5"), point(1, 1, "-4")]),
        ],
        entities: vec![insert("B1", 100, 0, "0"), insert("B2", 0, 100, "0")],
    })
}

#[test]
fn second_selection_replaces_the_first() {
    let mut p = two_blocks();
    p.highlight_selection(&vec!["B1".to_string()]);
    p.highlight_selection(&vec!["B2".to_string()]);
    let b1 = p.blocks.iter().find(|b| b.name == "B1").unwrap();
    let b2 = p.blocks.iter().find(|b| b.name == "B2").unwrap();
    assert!(b2.is_highlighted() && b2.entities.iter().all(|e| e.highlighted));
    assert!(!b1.is_highlighted() && b1.entities.iter().all(|e| !e.highlighted));
}

#[test]
fn set_highlight_reports_unknown_names() {
    let mut p = two_blocks();
    assert!(p.set_highlight(&"B1".to_string(), true));
    assert!(!p.set_highlight(&"nope".to_string(), true));
    assert!(p.blocks[1].is_highlighted());
    assert!(!p.blocks[0].is_highlighted());
    p.reset_selection();
    assert!(!p.blocks[1].is_highlighted());
}

#[test]
fn layers_are_distinct_and_sorted() {
    let p = two_blocks();
    assert_eq!(p.get_all_layers(), vec![-4, 1, 2, 5]);
}

#[test]
fn block_names_are_sorted() {
    let p = two_blocks();
    assert_eq!(p.get_all_block_names(), vec!["B1".to_string(), "B2".to_string()]);
}

#[test]
fn placement_falls_back_to_origin() {
    let p = two_blocks();
    assert_eq!(p.get_offset_for_block(&"B1".to_string()), v(100, 0));
    assert_eq!(p.get_offset_for_block(&"none".to_string()), v(0, 0));
}

#[test]
fn box_query_respects_placement_and_view() {
    let p = two_blocks();
    let q = pattern_engine::BoundingBox { min_x: 95, max_x: 105, min_y: -5, max_y: 5 };
    let (names, u) = p.find_blocks_with_bbox(&q, &"Model".to_string());
    assert_eq!(names, vec!["B1".to_string()]);
    assert_eq!(u, Some(WorldBox { min_x: 100, max_x: 101, min_y: 0, max_y: 1 }));
    let (names, u) = p.find_blocks_with_bbox(&q, &"Block=>B1".to_string());
    assert!(names.is_empty() && u.is_none());
    let near_origin = pattern_engine::BoundingBox { min_x: 0, max_x: 1, min_y: 0, max_y: 1 };
    let (names, _) = p.find_blocks_with_bbox(&near_origin, &"Block=>B1".to_string());
    assert_eq!(names, vec!["B1".to_string()]);
}

#[test]
fn draw_model_places_blocks_and_numbers_across_them() {
    let p = two_blocks();
    let settings = Settings::default();
    let (mut vb, mut ib) = (VertexBuffer::new(), IndexBuffer::new());
    assert!(p.update_draw_sequence(&settings, &mut vb, &mut ib));
    // B2's line at (0, 100), then B1's two points as crosses at (100, 0)
    assert_eq!(vb.buffer.len(), 2 + 4 + 4);
    assert_eq!((vb.buffer[0].x, vb.buffer[0].y), (0, 100));
    assert_eq!((vb.buffer[1].x, vb.buffer[1].y), (10, 110));
    assert_eq!(
        ib.buffer,
        vec![0, 1, PRIMITIVE_RESTART, 2, 3, PRIMITIVE_RESTART, 4, 5, PRIMITIVE_RESTART, 6, 7,
            PRIMITIVE_RESTART, 8, 9, PRIMITIVE_RESTART]
    );
}

#[test]
fn draw_block_view_uses_the_origin_and_skips_hidden_layers() {
    let p = two_blocks();
    let mut settings = Settings::default();
    settings.view = "Block=>B1".to_string();
    settings.disabled_layers.push(-4);
    let (mut vb, mut ib) = (VertexBuffer::new(), IndexBuffer::new());
    assert!(p.update_draw_sequence(&settings, &mut vb, &mut ib));
    assert_eq!(vb.buffer.len(), 4);
    assert_eq!((vb.buffer[0].x, vb.buffer[0].y), (-1, -1));
    settings.view = "Block=>none".to_string();
    let (mut vb, mut ib) = (VertexBuffer::new(), IndexBuffer::new());
    assert!(p.update_draw_sequence(&settings, &mut vb, &mut ib));
    assert!(vb.buffer.is_empty() && ib.buffer.is_empty());
}

#[test]
fn draw_uses_layer_and_default_colors() {
    let p = two_blocks();
    let mut settings = Settings::default();
    let teal = Rgba { r: 0, g: 128, b: 128, a: 255 };
    settings.layer_colors.push(pattern_engine::LayerColor { layer: 5, color: teal });
    let (mut vb, mut ib) = (VertexBuffer::new(), IndexBuffer::new());
    p.update_draw_sequence(&settings, &mut vb, &mut ib);
    // B2 sits on layer 5, so its line on layer 2 falls back to the block's colour
    assert_eq!(vb.buffer[0].color, teal);
    // B1's first point is itself on layer 5
    assert_eq!(vb.buffer[2].color, teal);
    // B1's second point falls back to B1's layer, which has no colour
    assert_eq!(vb.buffer[6].color, settings.default_color);
}

#[test]
fn offset_moves_placements_in_model_view() {
    let mut p = two_blocks();
    p.highlight_selection(&vec!["B1".to_string()]);
    p.offset_highlighted_objects(&v(5, -5), &"Model".to_string());
    assert_eq!(p.get_offset_for_block(&"B1".to_string()), v(105, -5));
    assert_eq!(p.get_offset_for_block(&"B2".to_string()), v(0, 100));
    assert_eq!(p.blocks[1].entities[0].vertices, vec![v(0, 0)]);
}

#[test]
fn offset_moves_entities_in_block_view() {
    let mut p = two_blocks();
    p.highlight_selection(&vec!["B1".to_string()]);
    p.offset_highlighted_objects(&v(5, -5), &"Block=>B1".to_string());
    assert_eq!(p.get_offset_for_block(&"B1".to_string()), v(100, 0));
    assert_eq!(p.blocks[1].entities[1].vertices, vec![v(6, -4)]);
    assert_eq!(p.blocks[1].get_bounding_box(), pattern_engine::BoundingBox { min_x: 5, max_x: 6, min_y: -5, max_y: -4 });
}

#[test]
fn scale_in_model_view_uses_local_anchor() {
    let mut p = two_blocks();
    p.highlight_selection(&vec!["B2".to_string()]);
    // anchor (0, 100) in world space is B2's local origin
    p.scale_highlighted_objects(&Scale { x: 2, y: 2, den: 1 }, &v(0, 100), &"Model".to_string());
    assert_eq!(p.blocks[0].entities[0].vertices, vec![v(0, 0), v(20, 20)]);
    assert_eq!(p.blocks[0].get_bounding_box(), pattern_engine::BoundingBox { min_x: 0, max_x: 20, min_y: 0, max_y: 20 });
}

#[test]
fn rotate_in_model_view_turns_about_world_center() {
    let mut p = two_blocks();
    p.highlight_selection(&vec!["B2".to_string()]);
    let quarter = Rotation { m00: 0, m01: 1, m10: -1, m11: 0, den: 1 };
    // turning about the world origin: offset 0
    p.rotate_highlights(&quarter, &v(0, 0), &"Model".to_string());
    // B2 is placed at (0, 100); (10, 10) local is (10, 110) world, turned to
    // (-110, 10), which is (-110, -90) local
    assert_eq!(p.blocks[0].entities[0].vertices, vec![v(-100, -100), v(-110, -90)]);
    let hb = p.get_highlighted_bounding_box(&"Model".to_string());
    assert_eq!(hb, Some(WorldBox { min_x: -110, max_x: -100, min_y: 0, max_y: 10 }));
}

#[test]
fn hex_colors_parse_and_report_the_wrong_part() {
    assert_eq!(hex_to_rgba("#FF8000cc"), Ok(Rgba { r: 255, g: 128, b: 0, a: 204 }));
    assert_eq!(hex_to_rgba("FF8000cc"), Err("Hex color must be in the format #RRGGBBAA".to_string()));
    assert_eq!(hex_to_rgba("#FF8000"), Err("Hex color must be in the format #RRGGBBAA".to_string()));
    assert_eq!(hex_to_rgba("#GG8000cc"), Err("Invalid red component".to_string()));
    assert_eq!(hex_to_rgba("#FFx000cc"), Err("Invalid green component".to_string()));
    assert_eq!(hex_to_rgba("#FF80z0cc"), Err("Invalid blue component".to_string()));
    assert_eq!(hex_to_rgba("#FF8000c-"), Err("Invalid alpha component".to_string()));
}

#[test]
fn block_view_names_are_read() {
    assert_eq!(view_as_block_key(&"Block=>L-1".to_string()), Some("L-1".to_string()));
    assert_eq!(view_as_block_key(&"Block=>".to_string()), Some(String::new()));
    assert_eq!(view_as_block_key(&"Model".to_string()), None);
    assert_eq!(view_as_block_key(&"Block".to_string()), None);
    assert_eq!(view_as_block_key(&"block=>L-1".to_string()), None);
}

#[test]
fn handle_selects_colors_and_hides_layers() {
    let mut h = Handle::new(two_blocks(), Settings::default());
    assert_eq!(h.select_block_with_point(&vec![100, 0]), vec!["B1".to_string()]);
    assert!(h.pattern.blocks[1].is_highlighted());
    assert!(h.select_block_with_point(&vec![100]).is_empty());
    assert!(!h.pattern.blocks[1].is_highlighted());
    let (names, u) = h.select_block_with_two_points(&vec![-1, 99], &vec![1, 101]);
    assert_eq!(names, vec!["B2".to_string()]);
    assert_eq!(u, Some(WorldBox { min_x: 0, max_x: 10, min_y: 100, max_y: 110 }));
    assert!(h.set_layer_color(2, "#00ff00ff"));
    assert!(h.set_layer_color(2, "#0000ffff"));
    assert!(!h.set_layer_color(3, "#nothex!!"));
    assert_eq!(h.settings.layer_colors.len(), 1);
    assert_eq!(h.settings.layer_colors[0].color, Rgba { r: 0, g: 0, b: 255, a: 255 });
    h.disable_layer(2);
    h.disable_layer(2);
    assert_eq!(h.settings.disabled_layers, vec![2]);
    h.enable_layer(2);
    assert!(h.settings.disabled_layers.is_empty());
    assert!(h.update_draw_sequence());
    assert_eq!(h.get_vertex_buffer_len(), 10);
    assert_eq!(h.get_index_buffer_len(), 15);
    assert!(h.update_draw_sequence());
    assert_eq!(h.get_vertex_buffer_len(), 10);
}

#[test]
fn handle_gestures_end_after_applying() {
    let mut h = Handle::new(two_blocks(), Settings::default());
    h.highlight_block("B1".to_string(), true);
    h.set_highlight_offset(1, 2);
    h.offset_highlights();
    assert_eq!(h.pattern.get_offset_for_block(&"B1".to_string()), v(101, 2));
    assert_eq!(h.settings.highlight_offset, v(0, 0));
    h.set_highlight_scale(Scale { x: 3, y: 1, den: 1 });
    h.set_highlight_flip(true, false);
    h.set_highlight_anchor(101, 2);
    h.scale_highlights();
    assert_eq!(h.pattern.blocks[1].entities[1].vertices, vec![v(-3, 1)]);
    assert_eq!(h.settings.highlight_scale, Scale::identity());
    h.set_highlight_rotation(Rotation { m00: -1, m01: 0, m10: 0, m11: -1, den: 1 });
    h.set_highlight_rotation_center(101, 2);
    let b = h.rotate_highlights();
    assert_eq!(h.pattern.blocks[1].entities[1].vertices, vec![v(3, -1)]);
    assert_eq!(b, Some(WorldBox { min_x: 101, max_x: 104, min_y: 1, max_y: 2 }));
    assert_eq!(h.settings.highlight_rotation, Rotation::identity());
}
