use vstd::prelude::*;

use crate::entity::HighlightTransform;
use crate::vector::{lemma_rotation_bound, rotate_coords, Rotation, Scale, Vertex};

verus! {

/// A colour as red, green, blue and alpha bytes.
#[derive(Clone, Copy, Debug, PartialEq, Eq, Structural)]
pub struct Rgba {
    pub r: u8,
    pub g: u8,
    pub b: u8,
    pub a: u8,
}

/// A colour that overrides the default for one layer.
#[derive(Clone, Copy, Debug, PartialEq, Eq, Structural)]
pub struct LayerColor {
    pub layer: i32,
    pub color: Rgba,
}

/// The colour that the first entry for `layer` gives, if any.
pub open spec fn layer_color(colors: Seq<LayerColor>, layer: i32) -> Option<Rgba>
    decreases colors.len(),
{
    if colors.len() == 0 {
        None
    } else if colors[0].layer == layer {
        Some(colors[0].color)
    } else {
        layer_color(colors.drop_first(), layer)
    }
}

/// Display settings, and the transform of a gesture in progress on the
/// highlighted objects.
#[derive(Debug)]
pub struct Settings {
    pub default_color: Rgba,
    pub highlight_color: Rgba,
    pub layer_colors: Vec<LayerColor>,
    pub disabled_layers: Vec<i32>,
    pub point_threshold: i64,
    pub cross_size: i64,
    pub view: String,
    pub highlight_offset: Vertex,
    pub highlight_scale: Scale,
    pub highlight_flip_x: bool,
    pub highlight_flip_y: bool,
    pub highlight_anchor: Vertex,
    pub highlight_rotation_center: Vertex,
    pub highlight_rotation: Rotation,
}

impl Settings {
    /// The gesture's scale and rotation are well formed, and a scale can be
    /// flipped without overflow.
    pub open spec fn wf(&self) -> bool {
        &&& self.highlight_scale.wf()
        &&& self.highlight_scale.x > i32::MIN
        &&& self.highlight_scale.y > i32::MIN
        &&& self.highlight_rotation.wf()
    }

    /// The gesture's scale with the flips applied.
    pub open spec fn flipped_scale(&self) -> Scale {
        Scale {
            x: if self.highlight_flip_x { (-self.highlight_scale.x) as i32 } else { self.highlight_scale.x },
            y: if self.highlight_flip_y { (-self.highlight_scale.y) as i32 } else { self.highlight_scale.y },
            den: self.highlight_scale.den,
        }
    }

    /// The transform that draws the gesture in progress: the rotation turns
    /// about `highlight_rotation_center`, so its offset is
    /// `center - center * rotation`.
    pub open spec fn transform_spec(&self) -> HighlightTransform {
        let c = self.highlight_rotation_center;
        let r = self.highlight_rotation;
        HighlightTransform {
            offset: self.highlight_offset,
            scale: self.flipped_scale(),
            anchor: self.highlight_anchor,
            rotation: r,
            rot_offset_x: (c.x - r.apply_x(c.x as int, c.y as int)) as i128,
            rot_offset_y: (c.y - r.apply_y(c.x as int, c.y as int)) as i128,
        }
    }

    pub fn get_drawing_pass_parameters(&self) -> (r: HighlightTransform)
        requires
            self.wf(),
        ensures
            r == self.transform_spec(),
            r.wf(),
    {
        let c = self.highlight_rotation_center;
        let (rx, ry) = rotate_coords(&self.highlight_rotation, c.x as i128, c.y as i128);
        proof {
            lemma_rotation_bound(self.highlight_rotation, c.x as int, c.y as int, 0x8000_0000_0000_0000);
        }
        let sx = if self.highlight_flip_x { -self.highlight_scale.x } else { self.highlight_scale.x };
        let sy = if self.highlight_flip_y { -self.highlight_scale.y } else { self.highlight_scale.y };
        HighlightTransform {
            offset: self.highlight_offset,
            scale: Scale { x: sx, y: sy, den: self.highlight_scale.den },
            anchor: self.highlight_anchor,
            rotation: self.highlight_rotation,
            rot_offset_x: c.x as i128 - rx,
            rot_offset_y: c.y as i128 - ry,
        }
    }

    /// The override colour for `layer`, if one is set.
    pub fn get_layer_color(&self, layer: i32) -> (r: Option<Rgba>)
        ensures
            r == layer_color(self.layer_colors@, layer),
    {
        let n = self.layer_colors.len();
        let mut i: usize = 0;
        proof {
            assert(self.layer_colors@.subrange(0, n as int) =~= self.layer_colors@);
        }
        while i < n
            invariant
                n == self.layer_colors@.len(),
                0 <= i <= n,
                layer_color(self.layer_colors@.subrange(i as int, n as int), layer) == layer_color(
                    self.layer_colors@,
                    layer,
                ),
            decreases n - i,
        {
            let lc = self.layer_colors[i];
            proof {
                let rest = self.layer_colors@.subrange(i as int, n as int);
                assert(rest.drop_first() =~= self.layer_colors@.subrange(i as int + 1, n as int));
                assert(rest[0] == lc);
            }
            if lc.layer == layer {
                return Some(lc.color);
            }
            i = i + 1;
        }
        proof {
            assert(self.layer_colors@.subrange(n as int, n as int).len() == 0);
        }
        None
    }

    /// Whether entities on `layer` are hidden.
    pub fn is_layer_disabled(&self, layer: i32) -> (r: bool)
        ensures
            r == self.disabled_layers@.contains(layer),
    {
        let n = self.disabled_layers.len();
        let mut i: usize = 0;
        while i < n
            invariant
                n == self.disabled_layers@.len(),
                0 <= i <= n,
                forall|j: int| 0 <= j < i ==> self.disabled_layers@[j] != layer,
            decreases n - i,
        {
            if self.disabled_layers[i] == layer {
                return true;
            }
            i = i + 1;
        }
        false
    }
}

impl Default for Settings {
    /// Black, a blue highlight, no overrides, nothing hidden, the whole model
    /// in view, and no gesture in progress.
    fn default() -> (r: Settings)
        ensures
            r.wf(),
            r.default_color == (Rgba { r: 0, g: 0, b: 0, a: 255 }),
            r.highlight_color == (Rgba { r: 0, g: 0, b: 255, a: 255 }),
            r.layer_colors@.len() == 0,
            r.disabled_layers@.len() == 0,
            r.view@ == "Model"@,
            r.highlight_offset == (Vertex { x: 0, y: 0 }),
            r.highlight_scale.is_identity(),
            !r.highlight_flip_x,
            !r.highlight_flip_y,
            r.highlight_anchor == (Vertex { x: 0, y: 0 }),
            r.highlight_rotation_center == (Vertex { x: 0, y: 0 }),
            r.highlight_rotation.is_identity(),
    {
        Settings {
            default_color: Rgba { r: 0, g: 0, b: 0, a: 255 },
            highlight_color: Rgba { r: 0, g: 0, b: 255, a: 255 },
            layer_colors: Vec::new(),
            disabled_layers: Vec::new(),
            point_threshold: 4,
            cross_size: 1,
            view: "Model".to_owned(),
            highlight_offset: Vertex { x: 0, y: 0 },
            highlight_scale: Scale::identity(),
            highlight_flip_x: false,
            highlight_flip_y: false,
            highlight_anchor: Vertex { x: 0, y: 0 },
            highlight_rotation_center: Vertex { x: 0, y: 0 },
            highlight_rotation: Rotation::identity(),
        }
    }
}

} // verus!
