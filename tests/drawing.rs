use pattern_engine::entity::HighlightTransform;
use pattern_engine::{
    Entity, EntityTypes, IndexBuffer, Rgba, Rotation, Scale, Settings, Shade, Vertex, VertexBuffer,
    VertexRecord, PRIMITIVE_RESTART,
};

fn v(x: i64, y: i64) -> Vertex {
    Vertex { x, y }
}

fn still() -> HighlightTransform {
    HighlightTransform {
        offset: v(0, 0),
        scale: Scale::identity(),
        anchor: v(0, 0),
        rotation: Rotation::identity(),
        rot_offset_x: 0,
        rot_offset_y: 0,
    }
}

fn polyline(vs: Vec<Vertex>, closed: bool) -> Entity {
    Entity::new(EntityTypes::Polyline, 1, closed, vs, 0, vec![b'a'; 32], String::new())
}

const RED: Rgba = Rgba { r: 255, g: 0, b: 0, a: 255 };

#[test]
fn closed_polyline_emits_n_plus_two_slots() {
    let e = polyline(vec![v(0, 0), v(1, 0), v(1, 1)], true);
    let (mut vb, mut ib) = (VertexBuffer::new(), IndexBuffer::new());
    let mut last: u32 = 5;
    e.update_draw_sequence(RED, &v(0, 0), &still(), 1, &mut last, &mut vb, &mut ib);
    assert_eq!(ib.buffer, vec![5, 6, 7, 5, PRIMITIVE_RESTART]);
    assert_eq!(vb.buffer.len(), 3);
    assert_eq!(last, 8);
}

#[test]
fn open_polyline_emits_n_plus_one_slots() {
    let e = polyline(vec![v(0, 0), v(1, 0), v(1, 1), v(2, 2)], false);
    let (mut vb, mut ib) = (VertexBuffer::new(), IndexBuffer::new());
    let mut last: u32 = 0;
    e.update_draw_sequence(RED, &v(0, 0), &still(), 1, &mut last, &mut vb, &mut ib);
    assert_eq!(ib.buffer, vec![0, 1, 2, 3, PRIMITIVE_RESTART]);
    assert_eq!(last, 4);
}

#[test]
fn point_emits_a_cross_of_four_vertices() {
    let e = Entity::new(EntityTypes::Point, 1, false, vec![v(10, 20)], 0, vec![b'a'; 32], String::new());
    let (mut vb, mut ib) = (VertexBuffer::new(), IndexBuffer::new());
    let mut last: u32 = 2;
    e.update_draw_sequence(RED, &v(100, 0), &still(), 3, &mut last, &mut vb, &mut ib);
    assert_eq!(ib.buffer, vec![2, 3, PRIMITIVE_RESTART, 4, 5, PRIMITIVE_RESTART]);
    assert_eq!(ib.buffer.iter().filter(|i| **i == PRIMITIVE_RESTART).count(), 2);
    assert_eq!(
        vb.buffer,
        vec![
            VertexRecord { x: 107, y: 17, color: RED, shade: Shade::Darker },
            VertexRecord { x: 113, y: 23, color: RED, shade: Shade::Lighter },
            VertexRecord { x: 113, y: 17, color: RED, shade: Shade::Plain },
            VertexRecord { x: 107, y: 23, color: RED, shade: Shade::Plain },
        ]
    );
    assert_eq!(last, 6);
}

#[test]
fn text_anchor_emits_a_cross_too() {
    let e = Entity::new(EntityTypes::Text, 1, false, vec![v(0, 0)], 25, vec![b'a'; 32], "label".to_string());
    let (mut vb, mut ib) = (VertexBuffer::new(), IndexBuffer::new());
    let mut last: u32 = 0;
    e.update_draw_sequence(RED, &v(0, 0), &still(), 1, &mut last, &mut vb, &mut ib);
    assert_eq!(vb.get_len(), 4);
    assert_eq!(ib.get_len(), 6);
}

#[test]
fn highlighted_entity_is_drawn_with_the_gesture() {
    let mut e = polyline(vec![v(0, 0), v(2, 4)], false);
    let mut t = still();
    t.offset = v(1, 1);
    t.scale = Scale { x: 2, y: 2, den: 1 };
    let (mut vb, mut ib) = (VertexBuffer::new(), IndexBuffer::new());
    let mut last: u32 = 0;
    e.update_draw_sequence(RED, &v(10, 0), &t, 1, &mut last, &mut vb, &mut ib);
    assert_eq!((vb.buffer[1].x, vb.buffer[1].y), (12, 4));
    e.highlight();
    vb.buffer.clear();
    e.update_draw_sequence(RED, &v(10, 0), &t, 1, &mut last, &mut vb, &mut ib);
    // (2 + 10 + 1, 4 + 0 + 1) scaled by 2 about the origin
    assert_eq!((vb.buffer[1].x, vb.buffer[1].y), (26, 10));
}

#[test]
fn highlighted_entity_is_turned_when_not_scaled() {
    let mut e = polyline(vec![v(1, 0), v(0, 1)], false);
    e.highlight();
    let mut t = still();
    t.rotation = Rotation { m00: 0, m01: 1, m10: -1, m11: 0, den: 1 };
    t.rot_offset_x = 100;
    let (mut vb, mut ib) = (VertexBuffer::new(), IndexBuffer::new());
    let mut last: u32 = 0;
    e.update_draw_sequence(RED, &v(0, 0), &t, 1, &mut last, &mut vb, &mut ib);
    assert_eq!((vb.buffer[0].x, vb.buffer[0].y), (100, 1));
    assert_eq!((vb.buffer[1].x, vb.buffer[1].y), (99, 0));
}

#[test]
fn color_precedence_is_highlight_then_layer_then_fallback() {
    let mut settings = Settings::default();
    let green = Rgba { r: 0, g: 255, b: 0, a: 255 };
    let mut e = polyline(vec![v(0, 0), v(1, 1)], false);
    assert_eq!(e.get_color(&settings, RED), RED);
    settings.layer_colors.push(pattern_engine::LayerColor { layer: 1, color: green });
    assert_eq!(e.get_color(&settings, RED), green);
    e.highlight();
    assert_eq!(e.get_color(&settings, RED), settings.highlight_color);
}

#[test]
fn drawing_parameters_flip_and_center_the_turn() {
    let mut settings = Settings::default();
    settings.highlight_scale = Scale { x: 3, y: 2, den: 1 };
    settings.highlight_flip_x = true;
    settings.highlight_rotation = Rotation { m00: 0, m01: 1, m10: -1, m11: 0, den: 1 };
    settings.highlight_rotation_center = v(5, 5);
    let t = settings.get_drawing_pass_parameters();
    assert_eq!(t.scale, Scale { x: -3, y: 2, den: 1 });
    assert_eq!((t.rot_offset_x, t.rot_offset_y), (10, 0));
}
