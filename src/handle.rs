use vstd::prelude::*;
use vstd::string::StringSliceAdditionalSpecFns;

use crate::bounding_box::{construct_from_vectors, BoundingBox, WorldBox};
use crate::color::{color_of, hex_to_rgba};
use crate::memory::{IndexBuffer, VertexBuffer, VertexRecord};
use crate::order::{ascending, string_views, strings_ascending};
use crate::pattern::{
    bbox_scan, key_names, offset_applied, point_hit_names, rotate_applied, scale_applied, view_key,
    Pattern,
};
use crate::settings::{layer_color, LayerColor, Rgba, Settings};
use crate::vector::{Rotation, Scale, Vertex};

verus! {

/// A viewing session: the pattern, the display settings, and the buffers of
/// the last drawing pass.
#[derive(Debug)]
pub struct Handle {
    pub pattern: Pattern,
    pub settings: Settings,
    pub vertex_buffer: VertexBuffer,
    pub index_buffer: IndexBuffer,
}

impl Handle {
    pub open spec fn wf(&self) -> bool {
        self.pattern.wf() && self.settings.wf()
    }

    /// A session on `pattern` with `settings` and empty buffers.
    pub fn new(pattern: Pattern, settings: Settings) -> (r: Handle)
        requires
            pattern.wf(),
            settings.wf(),
        ensures
            r.wf(),
            r.pattern == pattern,
            r.settings == settings,
            r.vertex_buffer.buffer@.len() == 0,
            r.index_buffer.buffer@.len() == 0,
    {
        Handle {
            pattern,
            settings,
            vertex_buffer: VertexBuffer::new(),
            index_buffer: IndexBuffer::new(),
        }
    }

    pub fn get_number_entities(&self) -> (r: usize)
        ensures
            r == (if crate::pattern::total_entities(self.pattern.blocks@) <= usize::MAX {
                crate::pattern::total_entities(self.pattern.blocks@)
            } else {
                usize::MAX as nat
            }),
    {
        self.pattern.get_number_entities()
    }

    /// Clears the buffers and refills them with a drawing pass of the
    /// current view; says whether the pass fitted (else the buffers stay
    /// empty).
    pub fn update_draw_sequence(&mut self) -> (r: bool)
        requires
            old(self).wf(),
        ensures
            final(self).pattern == old(self).pattern,
            final(self).settings == old(self).settings,
            r == (old(self).pattern.scene_count(&old(self).settings) < crate::memory::PRIMITIVE_RESTART),
            r ==> final(self).vertex_buffer.buffer@ == old(self).pattern.scene_vertices(&old(self).settings),
            r ==> final(self).index_buffer.buffer@ == old(self).pattern.scene_indices(&old(self).settings),
            !r ==> final(self).vertex_buffer.buffer@.len() == 0 && final(self).index_buffer.buffer@.len() == 0,
    {
        self.vertex_buffer.buffer.clear();
        self.index_buffer.buffer.clear();
        let r = self.pattern.update_draw_sequence(&self.settings, &mut self.vertex_buffer, &mut self.index_buffer);
        proof {
            assert(Seq::<VertexRecord>::empty() + old(self).pattern.scene_vertices(&old(self).settings)
                =~= old(self).pattern.scene_vertices(&old(self).settings));
            assert(Seq::<u32>::empty() + old(self).pattern.scene_indices(&old(self).settings)
                =~= old(self).pattern.scene_indices(&old(self).settings));
        }
        r
    }

    pub fn get_all_layers(&self) -> (r: Vec<i32>)
        ensures
            r@.to_multiset() == crate::pattern::pattern_layers(self.pattern.blocks@).to_multiset(),
            ascending(r@),
    {
        self.pattern.get_all_layers()
    }

    pub fn get_all_block_names(&self) -> (r: Vec<String>)
        ensures
            string_views(r@).to_multiset() == crate::pattern::names(self.pattern.blocks@).to_multiset(),
            strings_ascending(r@),
    {
        self.pattern.get_all_block_names()
    }

    /// The vertex records of the last pass.
    pub fn get_vertex_buffer_ptr(&self) -> (r: &[VertexRecord])
        ensures
            r@ == self.vertex_buffer.buffer@,
    {
        self.vertex_buffer.get_ptr()
    }

    pub fn get_vertex_buffer_len(&self) -> (r: usize)
        ensures
            r == self.vertex_buffer.buffer@.len(),
    {
        self.vertex_buffer.get_len()
    }

    /// The indices of the last pass.
    pub fn get_index_buffer_ptr(&self) -> (r: &[u32])
        ensures
            r@ == self.index_buffer.buffer@,
    {
        self.index_buffer.get_ptr()
    }

    pub fn get_index_buffer_len(&self) -> (r: usize)
        ensures
            r == self.index_buffer.buffer@.len(),
    {
        self.index_buffer.get_len()
    }

    /// Shows the whole model, or one block with a view `Block=><name>`.
    pub fn set_view(&mut self, name: String)
        requires
            old(self).wf(),
        ensures
            final(self).wf(),
            final(self).settings.view@ == name@,
            final(self).pattern == old(self).pattern,
    {
        self.settings.view = name;
    }

    /// Sets the colour of `layer` from `#RRGGBBAA`; an unreadable colour
    /// changes nothing. Tells whether the colour was read.
    pub fn set_layer_color(&mut self, layer: i32, color_hex: &str) -> (r: bool)
        requires
            old(self).wf(),
        ensures
            final(self).wf(),
            final(self).pattern == old(self).pattern,
            r == color_of(color_hex.spec_bytes()) is Some,
            r ==> layer_color(final(self).settings.layer_colors@, layer) == color_of(color_hex.spec_bytes()),
            forall|l: i32|
                l != layer ==> layer_color(final(self).settings.layer_colors@, l) == layer_color(
                    old(self).settings.layer_colors@,
                    l,
                ),
            !r ==> final(self).settings.layer_colors@ == old(self).settings.layer_colors@,
    {
        match hex_to_rgba(color_hex) {
            Ok(c) => {
                set_color_entry(&mut self.settings.layer_colors, layer, c);
                true
            },
            Err(_) => false,
        }
    }
}

impl Handle {
    pub fn reset_selection(&mut self)
        requires
            old(self).wf(),
        ensures
            final(self).wf(),
            final(self).settings == old(self).settings,
            final(self).pattern.selected(&old(self).pattern, Seq::empty()),
    {
        self.pattern.reset_selection();
        proof {
            assert forall|i: int| 0 <= i < self.pattern.blocks@.len() implies crate::pattern::flagged(
                #[trigger] self.pattern.blocks@[i],
                Seq::<Seq<char>>::empty().contains(self.pattern.blocks@[i].name@),
            ) by {}
        }
    }

    /// Selects the blocks whose placed box, grown by the point threshold,
    /// holds `point` (given as `[x, y]`), and returns their names. Anything
    /// but two coordinates selects nothing.
    pub fn select_block_with_point(&mut self, point: &Vec<i64>) -> (r: Vec<String>)
        requires
            old(self).wf(),
        ensures
            final(self).wf(),
            final(self).settings == old(self).settings,
            point@.len() != 2 ==> r@.len() == 0,
            point@.len() == 2 ==> key_names(r@) == point_hit_names(
                old(self).pattern.blocks@,
                old(self).pattern.entities@,
                Vertex { x: point@[0], y: point@[1] },
                old(self).settings.point_threshold as int,
            ),
            final(self).pattern.selected(&old(self).pattern, key_names(r@)),
    {
        let keys = if point.len() != 2 {
            Vec::new()
        } else {
            let p = Vertex { x: point[0], y: point[1] };
            self.pattern.find_blocks_with_point(&p, self.settings.point_threshold)
        };
        self.pattern.highlight_selection(&keys);
        keys
    }

    /// Selects the blocks whose placed box meets the box spanned by `v1` and
    /// `v2` (each `[x, y]`), and returns their names and the union of their
    /// boxes. Corners without two coordinates select nothing.
    pub fn select_block_with_two_points(&mut self, v1: &Vec<i64>, v2: &Vec<i64>) -> (r: (
        Vec<String>,
        Option<WorldBox>,
    ))
        requires
            old(self).wf(),
        ensures
            final(self).wf(),
            final(self).settings == old(self).settings,
            (v1@.len() != 2 || v2@.len() != 2) ==> r.0@.len() == 0 && r.1 is None,
            (v1@.len() == 2 && v2@.len() == 2) ==> {
                let q = BoundingBox::spanned(
                    Vertex { x: v1@[0], y: v1@[1] },
                    Vertex { x: v2@[0], y: v2@[1] },
                );
                let found = bbox_scan(
                    old(self).pattern.blocks@,
                    old(self).pattern.entities@,
                    q,
                    view_key(old(self).settings.view@),
                );
                key_names(r.0@) == found.0 && r.1 == found.1
            },
            final(self).pattern.selected(&old(self).pattern, key_names(r.0@)),
    {
        match construct_from_vectors(v1, v2) {
            Some(bbox) => {
                let (keys, u) = self.pattern.find_blocks_with_bbox(&bbox, &self.settings.view);
                self.pattern.highlight_selection(&keys);
                (keys, u)
            },
            None => {
                let keys: Vec<String> = Vec::new();
                self.pattern.highlight_selection(&keys);
                (keys, None)
            },
        }
    }

    /// Hides the entities on `layer`.
    pub fn disable_layer(&mut self, layer: i32)
        requires
            old(self).wf(),
        ensures
            final(self).wf(),
            final(self).pattern == old(self).pattern,
            final(self).settings.disabled_layers@ == if old(self).settings.disabled_layers@.contains(layer) {
                old(self).settings.disabled_layers@
            } else {
                old(self).settings.disabled_layers@.push(layer)
            },
    {
        if !crate::block::vec_contains(&self.settings.disabled_layers, layer) {
            self.settings.disabled_layers.push(layer);
        }
    }

    /// Shows the entities on `layer` again.
    pub fn enable_layer(&mut self, layer: i32)
        requires
            old(self).wf(),
        ensures
            final(self).wf(),
            final(self).pattern == old(self).pattern,
            final(self).settings.disabled_layers@ == old(self).settings.disabled_layers@.filter(
                |x: i32| x != layer,
            ),
    {
        let ghost d = self.settings.disabled_layers@;
        let mut kept: Vec<i32> = Vec::new();
        let n = self.settings.disabled_layers.len();
        let mut i: usize = 0;
        while i < n
            invariant
                n == d.len(),
                d == self.settings.disabled_layers@,
                0 <= i <= n,
                kept@ == d.subrange(0, i as int).filter(|x: i32| x != layer),
            decreases n - i,
        {
            let x = self.settings.disabled_layers[i];
            proof {
                assert(d.subrange(0, i as int + 1).drop_last() =~= d.subrange(0, i as int));
                reveal(Seq::filter);
            }
            if x != layer {
                kept.push(x);
            }
            i = i + 1;
        }
        proof {
            assert(d.subrange(0, n as int) =~= d);
        }
        self.settings.disabled_layers = kept;
    }

    /// Highlights, or clears, the block named `block_key`; tells whether there
    /// is such a block.
    pub fn highlight_block(&mut self, block_key: String, status: bool) -> (r: bool)
        requires
            old(self).wf(),
        ensures
            final(self).wf(),
            final(self).settings == old(self).settings,
            r == crate::pattern::names(old(self).pattern.blocks@).contains(block_key@),
            final(self).pattern.same_shapes(&old(self).pattern),
            forall|i: int|
                0 <= i < final(self).pattern.blocks@.len() ==> if final(self).pattern.blocks@[i].name@
                    == block_key@ {
                    crate::pattern::flagged(#[trigger] final(self).pattern.blocks@[i], status)
                } else {
                    final(self).pattern.blocks@[i] == old(self).pattern.blocks@[i]
                },
    {
        self.pattern.set_highlight(&block_key, status)
    }

    pub fn set_highlight_offset(&mut self, offset_x: i64, offset_y: i64)
        requires
            old(self).wf(),
        ensures
            final(self).wf(),
            final(self).pattern == old(self).pattern,
            final(self).settings.highlight_offset == (Vertex { x: offset_x, y: offset_y }),
    {
        self.settings.highlight_offset = Vertex { x: offset_x, y: offset_y };
    }

    /// Applies the gesture's move to the highlighted objects and ends it.
    pub fn offset_highlights(&mut self)
        requires
            old(self).wf(),
        ensures
            final(self).wf(),
            offset_applied(
                &final(self).pattern,
                &old(self).pattern,
                old(self).settings.highlight_offset,
                view_key(old(self).settings.view@),
            ),
            final(self).settings.highlight_offset == (Vertex { x: 0, y: 0 }),
            final(self).settings.view == old(self).settings.view,
    {
        let offset = self.settings.highlight_offset;
        self.pattern.offset_highlighted_objects(&offset, &self.settings.view);
        self.settings.highlight_offset = Vertex { x: 0, y: 0 };
    }

    pub fn set_highlight_scale(&mut self, scale: Scale)
        requires
            old(self).wf(),
            scale.wf(),
            scale.x > i32::MIN,
            scale.y > i32::MIN,
        ensures
            final(self).wf(),
            final(self).pattern == old(self).pattern,
            final(self).settings.highlight_scale == scale,
    {
        self.settings.highlight_scale = scale;
    }

    pub fn set_highlight_flip(&mut self, flip_x: bool, flip_y: bool)
        requires
            old(self).wf(),
        ensures
            final(self).wf(),
            final(self).pattern == old(self).pattern,
            final(self).settings.highlight_flip_x == flip_x,
            final(self).settings.highlight_flip_y == flip_y,
    {
        self.settings.highlight_flip_x = flip_x;
        self.settings.highlight_flip_y = flip_y;
    }

    pub fn set_highlight_rotation_center(&mut self, x: i64, y: i64)
        requires
            old(self).wf(),
        ensures
            final(self).wf(),
            final(self).pattern == old(self).pattern,
            final(self).settings.highlight_rotation_center == (Vertex { x, y }),
    {
        self.settings.highlight_rotation_center = Vertex { x, y };
    }

    /// Sets the gesture's rotation matrix (the caller turns an angle into
    /// one).
    pub fn set_highlight_rotation(&mut self, rotation: Rotation)
        requires
            old(self).wf(),
            rotation.wf(),
        ensures
            final(self).wf(),
            final(self).pattern == old(self).pattern,
            final(self).settings.highlight_rotation == rotation,
    {
        self.settings.highlight_rotation = rotation;
    }

    pub fn set_highlight_anchor(&mut self, x: i64, y: i64)
        requires
            old(self).wf(),
        ensures
            final(self).wf(),
            final(self).pattern == old(self).pattern,
            final(self).settings.highlight_anchor == (Vertex { x, y }),
    {
        self.settings.highlight_anchor = Vertex { x, y };
    }

    /// Applies the gesture's scale (flips included) about its anchor to the
    /// highlighted objects and ends it.
    pub fn scale_highlights(&mut self)
        requires
            old(self).wf(),
        ensures
            final(self).wf(),
            scale_applied(
                &final(self).pattern,
                &old(self).pattern,
                old(self).settings.flipped_scale(),
                old(self).settings.highlight_anchor,
                view_key(old(self).settings.view@),
            ),
            final(self).settings.highlight_scale.is_identity(),
            !final(self).settings.highlight_flip_x,
            !final(self).settings.highlight_flip_y,
            final(self).settings.highlight_anchor == (Vertex { x: 0, y: 0 }),
    {
        let t = self.settings.get_drawing_pass_parameters();
        let anchor = self.settings.highlight_anchor;
        self.pattern.scale_highlighted_objects(&t.scale, &anchor, &self.settings.view);
        self.settings.highlight_scale = Scale::identity();
        self.settings.highlight_flip_x = false;
        self.settings.highlight_flip_y = false;
        self.settings.highlight_anchor = Vertex { x: 0, y: 0 };
    }

    /// Applies the gesture's rotation about its center to the highlighted
    /// objects, ends it, and returns the box around them. When the offset
    /// of the turn, `center - center * rotation`, leaves the range, nothing
    /// is turned.
    pub fn rotate_highlights(&mut self) -> (r: Option<WorldBox>)
        requires
            old(self).wf(),
        ensures
            final(self).wf(),
            ({
                let t = old(self).settings.transform_spec();
                if crate::vector::fits_i64(t.rot_offset_x as int) && crate::vector::fits_i64(
                    t.rot_offset_y as int,
                ) {
                    rotate_applied(
                        &final(self).pattern,
                        &old(self).pattern,
                        t.rotation,
                        Vertex { x: t.rot_offset_x as i64, y: t.rot_offset_y as i64 },
                        view_key(old(self).settings.view@),
                    )
                } else {
                    final(self).pattern == old(self).pattern
                }
            }),
            view_key(old(self).settings.view@) is Some ==> r == match crate::pattern::first_highlighted(
                final(self).pattern.blocks@,
            ) {
                Some(i) => Some(final(self).pattern.blocks@[i].bounding_box.placed(Vertex { x: 0, y: 0 })),
                None => None::<WorldBox>,
            },
            view_key(old(self).settings.view@) is None ==> r == crate::pattern::highlighted_union(
                final(self).pattern.blocks@,
                final(self).pattern.entities@,
            ),
            final(self).settings.highlight_rotation.is_identity(),
            final(self).settings.view == old(self).settings.view,
    {
        let t = self.settings.get_drawing_pass_parameters();
        let lo = i64::MIN as i128;
        let hi = i64::MAX as i128;
        if lo <= t.rot_offset_x && t.rot_offset_x <= hi && lo <= t.rot_offset_y && t.rot_offset_y <= hi {
            let off = Vertex { x: t.rot_offset_x as i64, y: t.rot_offset_y as i64 };
            self.pattern.rotate_highlights(&t.rotation, &off, &self.settings.view);
        }
        let r = self.pattern.get_highlighted_bounding_box(&self.settings.view);
        self.settings.highlight_rotation = Rotation::identity();
        r
    }
}

/// Gives `layer` the colour `c`, replacing its entry or adding one.
fn set_color_entry(colors: &mut Vec<LayerColor>, layer: i32, c: Rgba)
    ensures
        layer_color(final(colors)@, layer) == Some(c),
        forall|l: i32| l != layer ==> layer_color(final(colors)@, l) == layer_color(old(colors)@, l),
{
    let n = colors.len();
    let mut i: usize = 0;
    while i < n
        invariant
            n == colors@.len(),
            colors@ == old(colors)@,
            0 <= i <= n,
            forall|j: int| 0 <= j < i ==> colors@[j].layer != layer,
        decreases n - i,
    {
        if colors[i].layer == layer {
            let ghost before = colors@;
            colors.set(i, LayerColor { layer, color: c });
            proof {
                lemma_layer_color_update(before, i as int, layer, c);
            }
            return;
        }
        i = i + 1;
    }
    let ghost before = colors@;
    colors.push(LayerColor { layer, color: c });
    proof {
        lemma_layer_color_push(before, layer, c);
    }
}

proof fn lemma_layer_color_update(s: Seq<LayerColor>, i: int, layer: i32, c: Rgba)
    requires
        0 <= i < s.len(),
        s[i].layer == layer,
        forall|j: int| 0 <= j < i ==> s[j].layer != layer,
    ensures
        layer_color(s.update(i, LayerColor { layer, color: c }), layer) == Some(c),
        forall|l: i32| l != layer ==> layer_color(s.update(i, LayerColor { layer, color: c }), l) == layer_color(s, l),
    decreases s.len(),
{
    let t = s.update(i, LayerColor { layer, color: c });
    if i > 0 {
        assert(t.drop_first() =~= s.drop_first().update(i - 1, LayerColor { layer, color: c }));
        lemma_layer_color_update(s.drop_first(), i - 1, layer, c);
    } else {
        assert(t.drop_first() =~= s.drop_first());
    }
    assert forall|l: i32| l != layer implies layer_color(t, l) == layer_color(s, l) by {
        if i > 0 {
            assert(t[0] == s[0]);
            if s[0].layer != l {
                assert(layer_color(t.drop_first(), l) == layer_color(s.drop_first(), l));
            }
        } else {
            assert(t[0].layer == layer);
            assert(layer_color(t, l) == layer_color(t.drop_first(), l));
            assert(layer_color(s, l) == layer_color(s.drop_first(), l));
        }
    }
}

proof fn lemma_layer_color_push(s: Seq<LayerColor>, layer: i32, c: Rgba)
    requires
        forall|j: int| 0 <= j < s.len() ==> s[j].layer != layer,
    ensures
        layer_color(s.push(LayerColor { layer, color: c }), layer) == Some(c),
        forall|l: i32| l != layer ==> layer_color(s.push(LayerColor { layer, color: c }), l) == layer_color(s, l),
    decreases s.len(),
{
    let t = s.push(LayerColor { layer, color: c });
    if s.len() > 0 {
        assert(t.drop_first() =~= s.drop_first().push(LayerColor { layer, color: c }));
        lemma_layer_color_push(s.drop_first(), layer, c);
    } else {
        assert(t.drop_first() =~= Seq::<LayerColor>::empty());
    }
    assert forall|l: i32| l != layer implies layer_color(t, l) == layer_color(s, l) by {
        if s.len() > 0 {
            assert(t[0] == s[0]);
            if s[0].layer != l {
                assert(layer_color(t.drop_first(), l) == layer_color(s.drop_first(), l));
            }
        } else {
            assert(t[0].layer == layer);
            assert(layer_color(t, l) == layer_color(t.drop_first(), l));
            assert(layer_color(t.drop_first(), l) is None);
        }
    }
}

} // verus!
