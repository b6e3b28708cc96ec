use vstd::prelude::*;

use crate::vector::{fits_i64, rotate_coords, scale_coord, scaled_coord, Rotation, Scale, Vertex};

verus! {

/// An axis-aligned box: `[min_x, max_x] x [min_y, max_y]`.
#[derive(Clone, Copy, Debug, PartialEq, Eq, Structural)]
pub struct BoundingBox {
    pub min_x: i64,
    pub max_x: i64,
    pub min_y: i64,
    pub max_y: i64,
}

pub open spec fn min_int(a: int, b: int) -> int {
    if a <= b { a } else { b }
}

pub open spec fn max_int(a: int, b: int) -> int {
    if a >= b { a } else { b }
}

/// The least element of a non-empty sequence (0 for the empty one).
pub open spec fn seq_min(s: Seq<int>) -> int
    decreases s.len(),
{
    if s.len() == 0 {
        0
    } else if s.len() == 1 {
        s[0]
    } else {
        min_int(seq_min(s.drop_last()), s.last())
    }
}

/// The greatest element of a non-empty sequence (0 for the empty one).
pub open spec fn seq_max(s: Seq<int>) -> int
    decreases s.len(),
{
    if s.len() == 0 {
        0
    } else if s.len() == 1 {
        s[0]
    } else {
        max_int(seq_max(s.drop_last()), s.last())
    }
}

pub open spec fn xs(vs: Seq<Vertex>) -> Seq<int> {
    vs.map_values(|v: Vertex| v.x as int)
}

pub open spec fn ys(vs: Seq<Vertex>) -> Seq<int> {
    vs.map_values(|v: Vertex| v.y as int)
}

/// A box in world space: a block's box moved to where the block is placed,
/// which may lie beyond the range of local coordinates.
#[derive(Clone, Copy, Debug, PartialEq, Eq, Structural)]
pub struct WorldBox {
    pub min_x: i128,
    pub max_x: i128,
    pub min_y: i128,
    pub max_y: i128,
}

impl WorldBox {
    pub open spec fn joined(self, o: WorldBox) -> WorldBox {
        WorldBox {
            min_x: if self.min_x <= o.min_x { self.min_x } else { o.min_x },
            max_x: if self.max_x >= o.max_x { self.max_x } else { o.max_x },
            min_y: if self.min_y <= o.min_y { self.min_y } else { o.min_y },
            max_y: if self.max_y >= o.max_y { self.max_y } else { o.max_y },
        }
    }

    /// Inclusive overlap with a box given in world coordinates.
    pub open spec fn meets(self, q: BoundingBox) -> bool {
        &&& self.min_x <= q.max_x
        &&& q.min_x <= self.max_x
        &&& self.min_y <= q.max_y
        &&& q.min_y <= self.max_y
    }

    /// The smallest box holding both.
    pub fn union(&self, o: &WorldBox) -> (r: WorldBox)
        ensures
            r == self.joined(*o),
    {
        WorldBox {
            min_x: if self.min_x <= o.min_x { self.min_x } else { o.min_x },
            max_x: if self.max_x >= o.max_x { self.max_x } else { o.max_x },
            min_y: if self.min_y <= o.min_y { self.min_y } else { o.min_y },
            max_y: if self.max_y >= o.max_y { self.max_y } else { o.max_y },
        }
    }

    pub fn intersects(&self, q: &BoundingBox) -> (r: bool)
        ensures
            r == self.meets(*q),
    {
        self.min_x <= q.max_x as i128 && q.min_x as i128 <= self.max_x && self.min_y <= q.max_y as i128
            && q.min_y as i128 <= self.max_y
    }
}

impl BoundingBox {
    /// The box moved to a placement at `o`, in world space.
    pub open spec fn placed(self, o: Vertex) -> WorldBox {
        WorldBox {
            min_x: (self.min_x + o.x) as i128,
            max_x: (self.max_x + o.x) as i128,
            min_y: (self.min_y + o.y) as i128,
            max_y: (self.max_y + o.y) as i128,
        }
    }

    pub fn place(&self, o: &Vertex) -> (r: WorldBox)
        ensures
            r == self.placed(*o),
    {
        WorldBox {
            min_x: self.min_x as i128 + o.x as i128,
            max_x: self.max_x as i128 + o.x as i128,
            min_y: self.min_y as i128 + o.y as i128,
            max_y: self.max_y as i128 + o.y as i128,
        }
    }

    /// The degenerate box at the origin.
    pub open spec fn zero() -> BoundingBox {
        BoundingBox { min_x: 0, max_x: 0, min_y: 0, max_y: 0 }
    }

    /// The box spanned by two corners.
    pub open spec fn spanned(a: Vertex, b: Vertex) -> BoundingBox {
        BoundingBox {
            min_x: if a.x <= b.x { a.x } else { b.x },
            max_x: if a.x >= b.x { a.x } else { b.x },
            min_y: if a.y <= b.y { a.y } else { b.y },
            max_y: if a.y >= b.y { a.y } else { b.y },
        }
    }

    pub open spec fn is_ordered(self) -> bool {
        self.min_x <= self.max_x && self.min_y <= self.max_y
    }

    /// `self` is the smallest box around `vs`, or the zero box when `vs` is empty.
    pub open spec fn bounds(self, vs: Seq<Vertex>) -> bool {
        if vs.len() == 0 {
            self == BoundingBox::zero()
        } else {
            &&& self.min_x == seq_min(xs(vs))
            &&& self.max_x == seq_max(xs(vs))
            &&& self.min_y == seq_min(ys(vs))
            &&& self.max_y == seq_max(ys(vs))
        }
    }

    pub open spec fn holds(self, p: Vertex, padding: int) -> bool {
        &&& self.min_x - padding <= p.x <= self.max_x + padding
        &&& self.min_y - padding <= p.y <= self.max_y + padding
    }

    pub open spec fn overlaps(self, o: BoundingBox) -> bool {
        &&& self.min_x <= o.max_x
        &&& o.min_x <= self.max_x
        &&& self.min_y <= o.max_y
        &&& o.min_y <= self.max_y
    }

    pub open spec fn joined(self, o: BoundingBox) -> BoundingBox {
        BoundingBox {
            min_x: if self.min_x <= o.min_x { self.min_x } else { o.min_x },
            max_x: if self.max_x >= o.max_x { self.max_x } else { o.max_x },
            min_y: if self.min_y <= o.min_y { self.min_y } else { o.min_y },
            max_y: if self.max_y >= o.max_y { self.max_y } else { o.max_y },
        }
    }

    pub open spec fn can_shift(self, d: Vertex) -> bool {
        &&& i64::MIN <= self.min_x + d.x <= i64::MAX
        &&& i64::MIN <= self.max_x + d.x <= i64::MAX
        &&& i64::MIN <= self.min_y + d.y <= i64::MAX
        &&& i64::MIN <= self.max_y + d.y <= i64::MAX
    }

    /// Whether the box can be moved by `d` without leaving the range.
    pub fn can_shift_exec(&self, d: &Vertex) -> (r: bool)
        ensures
            r == self.can_shift(*d),
    {
        let (dx, dy) = (d.x as i128, d.y as i128);
        let lo = i64::MIN as i128;
        let hi = i64::MAX as i128;
        lo <= self.min_x as i128 + dx && self.min_x as i128 + dx <= hi && lo <= self.max_x as i128 + dx
            && self.max_x as i128 + dx <= hi && lo <= self.min_y as i128 + dy && self.min_y as i128 + dy
            <= hi && lo <= self.max_y as i128 + dy && self.max_y as i128 + dy <= hi
    }

    /// Whether both corners stay in range when scaled about `a`.
    pub fn can_scale_exec(&self, s: &Scale, a: &Vertex) -> (r: bool)
        requires
            s.wf(),
        ensures
            r == self.can_scale(*s, *a),
    {
        let lo = i64::MIN as i128;
        let hi = i64::MAX as i128;
        let x0 = scale_coord(self.min_x as i128, a.x as i128, s.x, s.den);
        let x1 = scale_coord(self.max_x as i128, a.x as i128, s.x, s.den);
        let y0 = scale_coord(self.min_y as i128, a.y as i128, s.y, s.den);
        let y1 = scale_coord(self.max_y as i128, a.y as i128, s.y, s.den);
        lo <= x0 && x0 <= hi && lo <= x1 && x1 <= hi && lo <= y0 && y0 <= hi && lo <= y1 && y1 <= hi
    }

    /// Whether every corner stays in range under `offset + v * r`.
    pub fn can_rotate_exec(&self, r: &Rotation, offset: &Vertex) -> (res: bool)
        requires
            r.wf(),
        ensures
            res == self.can_rotate(*r, *offset),
    {
        let lo = i64::MIN as i128;
        let hi = i64::MAX as i128;
        let ox = offset.x as i128;
        let oy = offset.y as i128;
        let (ax, ay) = rotate_coords(r, self.min_x as i128, self.min_y as i128);
        let (bx, by) = rotate_coords(r, self.max_x as i128, self.min_y as i128);
        let (cx, cy) = rotate_coords(r, self.min_x as i128, self.max_y as i128);
        let (dx, dy) = rotate_coords(r, self.max_x as i128, self.max_y as i128);
        let res = lo <= ox + ax && ox + ax <= hi && lo <= oy + ay && oy + ay <= hi && lo <= ox + bx && ox
            + bx <= hi && lo <= oy + by && oy + by <= hi && lo <= ox + cx && ox + cx <= hi && lo <= oy
            + cy && oy + cy <= hi && lo <= ox + dx && ox + dx <= hi && lo <= oy + dy && oy + dy <= hi;
        proof {
            let c = self.corners();
            if res {
                assert forall|i: int| 0 <= i < 4 implies #[trigger] c[i].can_rotate(*r, *offset) by {
                    assert(i == 0 || i == 1 || i == 2 || i == 3);
                }
            } else {
                if self.can_rotate(*r, *offset) {
                    assert(c[0].can_rotate(*r, *offset));
                    assert(c[1].can_rotate(*r, *offset));
                    assert(c[2].can_rotate(*r, *offset));
                    assert(c[3].can_rotate(*r, *offset));
                }
            }
        }
        res
    }

    pub open spec fn shifted(self, d: Vertex) -> BoundingBox {
        BoundingBox {
            min_x: (self.min_x + d.x) as i64,
            max_x: (self.max_x + d.x) as i64,
            min_y: (self.min_y + d.y) as i64,
            max_y: (self.max_y + d.y) as i64,
        }
    }


    pub open spec fn can_scale(self, s: Scale, a: Vertex) -> bool {
        &&& fits_i64(scaled_coord(self.min_x as int, a.x as int, s.x as int, s.den as int))
        &&& fits_i64(scaled_coord(self.max_x as int, a.x as int, s.x as int, s.den as int))
        &&& fits_i64(scaled_coord(self.min_y as int, a.y as int, s.y as int, s.den as int))
        &&& fits_i64(scaled_coord(self.max_y as int, a.y as int, s.y as int, s.den as int))
    }

    /// Both corners mapped by `(v - a) * s + a`, each axis sorted again.
    pub open spec fn scaled(self, s: Scale, a: Vertex) -> BoundingBox {
        let x0 = scaled_coord(self.min_x as int, a.x as int, s.x as int, s.den as int);
        let x1 = scaled_coord(self.max_x as int, a.x as int, s.x as int, s.den as int);
        let y0 = scaled_coord(self.min_y as int, a.y as int, s.y as int, s.den as int);
        let y1 = scaled_coord(self.max_y as int, a.y as int, s.y as int, s.den as int);
        BoundingBox {
            min_x: min_int(x0, x1) as i64,
            max_x: max_int(x0, x1) as i64,
            min_y: min_int(y0, y1) as i64,
            max_y: max_int(y0, y1) as i64,
        }
    }


    pub open spec fn corners(self) -> Seq<Vertex> {
        seq![
            Vertex { x: self.min_x, y: self.min_y },
            Vertex { x: self.max_x, y: self.min_y },
            Vertex { x: self.min_x, y: self.max_y },
            Vertex { x: self.max_x, y: self.max_y },
        ]
    }

    /// Each corner of the box stays in range under `offset + v * r`.
    pub open spec fn can_rotate(self, r: Rotation, offset: Vertex) -> bool {
        forall|i: int| 0 <= i < 4 ==> #[trigger] self.corners()[i].can_rotate(r, offset)
    }
}

/// The smallest box around `vertices`; the zero box when there are none.
pub fn from_array(vertices: &Vec<Vertex>) -> (r: BoundingBox)
    ensures
        r.bounds(vertices@),
        r.is_ordered(),
{
        let n = vertices.len();
        if n == 0 {
            return BoundingBox { min_x: 0, max_x: 0, min_y: 0, max_y: 0 };
        }
        let v0 = vertices[0];
        let mut r = BoundingBox { min_x: v0.x, max_x: v0.x, min_y: v0.y, max_y: v0.y };
        let mut i: usize = 1;
        proof {
            lemma_bounds_prefix(vertices@, 1);
        }
        while i < n
            invariant
                n == vertices.len(),
                1 <= i <= n,
                r.bounds(vertices@.subrange(0, i as int)),
            decreases n - i,
        {
            let v = vertices[i];
            proof {
                lemma_bounds_prefix(vertices@, i as int + 1);
            }
            if v.x < r.min_x {
                r.min_x = v.x;
            }
            if v.x > r.max_x {
                r.max_x = v.x;
            }
            if v.y < r.min_y {
                r.min_y = v.y;
            }
            if v.y > r.max_y {
                r.max_y = v.y;
            }
            i = i + 1;
        }
        proof {
            assert(vertices@.subrange(0, n as int) =~= vertices@);
            lemma_bounds_ordered(r, vertices@);
        }
        r
}

/// The bounds of a prefix unfold to the bounds of the one before it.
proof fn lemma_bounds_prefix(vs: Seq<Vertex>, k: int)
    requires
        1 <= k <= vs.len(),
    ensures
        k == 1 ==> seq_min(xs(vs.subrange(0, k))) == vs[0].x && seq_max(xs(vs.subrange(0, k)))
            == vs[0].x && seq_min(ys(vs.subrange(0, k))) == vs[0].y && seq_max(
            ys(vs.subrange(0, k)),
        ) == vs[0].y,
        k > 1 ==> seq_min(xs(vs.subrange(0, k))) == min_int(
            seq_min(xs(vs.subrange(0, k - 1))),
            vs[k - 1].x as int,
        ) && seq_max(xs(vs.subrange(0, k))) == max_int(
            seq_max(xs(vs.subrange(0, k - 1))),
            vs[k - 1].x as int,
        ) && seq_min(ys(vs.subrange(0, k))) == min_int(
            seq_min(ys(vs.subrange(0, k - 1))),
            vs[k - 1].y as int,
        ) && seq_max(ys(vs.subrange(0, k))) == max_int(
            seq_max(ys(vs.subrange(0, k - 1))),
            vs[k - 1].y as int,
        ),
{
    let p = vs.subrange(0, k);
    if k > 1 {
        assert(xs(p).drop_last() =~= xs(vs.subrange(0, k - 1)));
        assert(ys(p).drop_last() =~= ys(vs.subrange(0, k - 1)));
    }
}


/// Whether `p` lies in `bbox` grown by `padding` on all four sides, bounds
/// included.
pub fn contains_point(bbox: &BoundingBox, p: &Vertex, padding: i64) -> (r: bool)
    ensures
        r == bbox.holds(*p, padding as int),
{
    let pad = padding as i128;
    p.x as i128 >= bbox.min_x as i128 - pad && p.x as i128 <= bbox.max_x as i128 + pad
        && p.y as i128 >= bbox.min_y as i128 - pad && p.y as i128 <= bbox.max_y as i128 + pad
}

/// `bbox` moved by `offset`.
pub fn offset_bbox(bbox: &BoundingBox, offset: &Vertex) -> (r: BoundingBox)
    requires
        bbox.can_shift(*offset),
    ensures
        r == bbox.shifted(*offset),
{
    BoundingBox {
        min_x: bbox.min_x + offset.x,
        max_x: bbox.max_x + offset.x,
        min_y: bbox.min_y + offset.y,
        max_y: bbox.max_y + offset.y,
    }
}

/// `bbox` with both corners mapped by `(v - anchor) * scale + anchor`, the
/// bounds of each axis sorted again (a negative factor swaps them).
pub fn scale_bbox(bbox: &BoundingBox, scale: &Scale, anchor: &Vertex) -> (r: BoundingBox)
    requires
        scale.wf(),
        bbox.can_scale(*scale, *anchor),
    ensures
        r == bbox.scaled(*scale, *anchor),
{
    let x0 = scale_coord(bbox.min_x as i128, anchor.x as i128, scale.x, scale.den) as i64;
    let x1 = scale_coord(bbox.max_x as i128, anchor.x as i128, scale.x, scale.den) as i64;
    let y0 = scale_coord(bbox.min_y as i128, anchor.y as i128, scale.y, scale.den) as i64;
    let y1 = scale_coord(bbox.max_y as i128, anchor.y as i128, scale.y, scale.den) as i64;
    BoundingBox {
        min_x: if x0 <= x1 { x0 } else { x1 },
        max_x: if x0 >= x1 { x0 } else { x1 },
        min_y: if y0 <= y1 { y0 } else { y1 },
        max_y: if y0 >= y1 { y0 } else { y1 },
    }
}

/// Whether the two boxes share at least one point, bounds included.
pub fn intersect(bbox1: &BoundingBox, bbox2: &BoundingBox) -> (r: bool)
    ensures
        r == bbox1.overlaps(*bbox2),
{
    bbox1.min_x <= bbox2.max_x && bbox2.min_x <= bbox1.max_x && bbox1.min_y <= bbox2.max_y
        && bbox2.min_y <= bbox1.max_y
}

/// The smallest box that holds both boxes.
pub fn union(bbox1: &BoundingBox, bbox2: &BoundingBox) -> (r: BoundingBox)
    ensures
        r == bbox1.joined(*bbox2),
{
    BoundingBox {
        min_x: if bbox1.min_x <= bbox2.min_x { bbox1.min_x } else { bbox2.min_x },
        max_x: if bbox1.max_x >= bbox2.max_x { bbox1.max_x } else { bbox2.max_x },
        min_y: if bbox1.min_y <= bbox2.min_y { bbox1.min_y } else { bbox2.min_y },
        max_y: if bbox1.max_y >= bbox2.max_y { bbox1.max_y } else { bbox2.max_y },
    }
}

/// The box spanned by two corners given as `[x, y]`; `None` unless both have
/// exactly two coordinates.
pub fn construct_from_vectors(v1: &Vec<i64>, v2: &Vec<i64>) -> (r: Option<BoundingBox>)
    ensures
        r is None <==> (v1.len() != 2 || v2.len() != 2),
        r matches Some(b) ==> b == BoundingBox::spanned(
            Vertex { x: v1[0], y: v1[1] },
            Vertex { x: v2[0], y: v2[1] },
        ),
{
    if v1.len() != 2 || v2.len() != 2 {
        return None;
    }
    let a = Vertex { x: v1[0], y: v1[1] };
    let b = Vertex { x: v2[0], y: v2[1] };
    let v = vec![a, b];
    let r = from_array(&v);
    proof {
        lemma_bounds_prefix(v@, 2);
        lemma_bounds_prefix(v@, 1);
        assert(v@.subrange(0, 2) =~= v@);
    }
    Some(r)
}

/// Each element of a non-empty sequence lies between its least and greatest
/// elements.
proof fn lemma_seq_min_max(s: Seq<int>)
    requires
        s.len() > 0,
    ensures
        forall|i: int| 0 <= i < s.len() ==> seq_min(s) <= #[trigger] s[i] <= seq_max(s),
        exists|i: int| 0 <= i < s.len() && seq_min(s) == #[trigger] s[i],
        exists|i: int| 0 <= i < s.len() && seq_max(s) == #[trigger] s[i],
    decreases s.len(),
{
    if s.len() > 1 {
        lemma_seq_min_max(s.drop_last());
        assert forall|i: int| 0 <= i < s.len() implies seq_min(s) <= #[trigger] s[i] <= seq_max(
            s,
        ) by {
            if i < s.len() - 1 {
                assert(s[i] == s.drop_last()[i]);
            }
        }
        let j = choose|j: int| 0 <= j < s.len() - 1 && seq_min(s.drop_last()) == s.drop_last()[j];
        let k = choose|k: int| 0 <= k < s.len() - 1 && seq_max(s.drop_last()) == s.drop_last()[k];
        assert(s[j] == s.drop_last()[j]);
        assert(s[k] == s.drop_last()[k]);
        if seq_min(s) != s[j] {
            assert(seq_min(s) == s[s.len() - 1]);
        }
        if seq_max(s) != s[k] {
            assert(seq_max(s) == s[s.len() - 1]);
        }
    } else {
        assert(seq_min(s) == s[0]);
    }
}

/// A box that bounds a set of vertices has its bounds in order.
pub proof fn lemma_bounds_ordered(b: BoundingBox, vs: Seq<Vertex>)
    requires
        b.bounds(vs),
    ensures
        b.is_ordered(),
{
    if vs.len() > 0 {
        lemma_seq_min_max(xs(vs));
        lemma_seq_min_max(ys(vs));
        assert(xs(vs)[0] == vs[0].x);
    }
}

/// Every vertex lies inside the box that bounds it.
pub proof fn lemma_bounds_hold(b: BoundingBox, vs: Seq<Vertex>)
    requires
        b.bounds(vs),
    ensures
        forall|i: int| 0 <= i < vs.len() ==> b.holds(#[trigger] vs[i], 0),
{
    if vs.len() > 0 {
        lemma_seq_min_max(xs(vs));
        lemma_seq_min_max(ys(vs));
        assert forall|i: int| 0 <= i < vs.len() implies b.holds(#[trigger] vs[i], 0) by {
            assert(xs(vs)[i] == vs[i].x);
            assert(ys(vs)[i] == vs[i].y);
        }
    }
}

proof fn lemma_map_monotone(s: Seq<int>, f: spec_fn(int) -> int)
    requires
        s.len() > 0,
        forall|a: int, b: int| a <= b ==> #[trigger] f(a) <= #[trigger] f(b),
    ensures
        seq_min(s.map_values(f)) == f(seq_min(s)),
        seq_max(s.map_values(f)) == f(seq_max(s)),
    decreases s.len(),
{
    if s.len() > 1 {
        lemma_map_monotone(s.drop_last(), f);
        assert(s.map_values(f).drop_last() =~= s.drop_last().map_values(f));
    }
}

proof fn lemma_map_antitone(s: Seq<int>, f: spec_fn(int) -> int)
    requires
        s.len() > 0,
        forall|a: int, b: int| a <= b ==> #[trigger] f(a) >= #[trigger] f(b),
    ensures
        seq_min(s.map_values(f)) == f(seq_max(s)),
        seq_max(s.map_values(f)) == f(seq_min(s)),
    decreases s.len(),
{
    if s.len() > 1 {
        lemma_map_antitone(s.drop_last(), f);
        assert(s.map_values(f).drop_last() =~= s.drop_last().map_values(f));
    }
}

proof fn lemma_scaled_ordered(x: int, y: int, a: int, n: int, d: int)
    requires
        x <= y,
        d > 0,
    ensures
        n >= 0 ==> scaled_coord(x, a, n, d) <= scaled_coord(y, a, n, d),
        n < 0 ==> scaled_coord(x, a, n, d) >= scaled_coord(y, a, n, d),
{
    if n >= 0 {
        assert((x - a) * n <= (y - a) * n) by (nonlinear_arith)
            requires
                x <= y,
                n >= 0,
        ;
        vstd::arithmetic::div_mod::lemma_div_is_ordered((x - a) * n, (y - a) * n, d);
    } else {
        assert((x - a) * n >= (y - a) * n) by (nonlinear_arith)
            requires
                x <= y,
                n < 0,
        ;
        vstd::arithmetic::div_mod::lemma_div_is_ordered((y - a) * n, (x - a) * n, d);
    }
}

/// Moving every vertex by `d` moves the box that bounds them by `d`.
pub proof fn lemma_shift_bounds(b: BoundingBox, vs: Seq<Vertex>, d: Vertex)
    requires
        b.bounds(vs),
        vs.len() > 0,
        b.can_shift(d),
    ensures
        forall|i: int| 0 <= i < vs.len() ==> (#[trigger] vs[i]).can_add(d),
        b.shifted(d).bounds(vs.map_values(|v: Vertex| v.plus(d))),
{
    lemma_bounds_hold(b, vs);
    let m = vs.map_values(|v: Vertex| v.plus(d));
    let fx = |x: int| x + d.x;
    let fy = |y: int| y + d.y;
    assert forall|i: int| 0 <= i < vs.len() implies (#[trigger] vs[i]).can_add(d) by {
        assert(b.holds(vs[i], 0));
    }
    assert(xs(m) =~= xs(vs).map_values(fx)) by {
        assert forall|i: int| 0 <= i < vs.len() implies xs(m)[i] == xs(vs).map_values(fx)[i] by {
            assert(vs[i].can_add(d));
        }
    }
    assert(ys(m) =~= ys(vs).map_values(fy)) by {
        assert forall|i: int| 0 <= i < vs.len() implies ys(m)[i] == ys(vs).map_values(fy)[i] by {
            assert(vs[i].can_add(d));
        }
    }
    lemma_map_monotone(xs(vs), fx);
    lemma_map_monotone(ys(vs), fy);
}

/// Scaling every vertex about `a` gives the vertices that the scaled box
/// bounds: the map is monotone on each axis, so extremes stay extremes.
pub proof fn lemma_scale_bounds(b: BoundingBox, vs: Seq<Vertex>, s: Scale, a: Vertex)
    requires
        s.wf(),
        b.bounds(vs),
        vs.len() > 0,
        b.can_scale(s, a),
    ensures
        forall|i: int| 0 <= i < vs.len() ==> (#[trigger] vs[i]).can_scale(s, a),
        b.scaled(s, a).bounds(vs.map_values(|v: Vertex| v.scaled(s, a))),
{
    lemma_bounds_hold(b, vs);
    lemma_bounds_ordered(b, vs);
    let m = vs.map_values(|v: Vertex| v.scaled(s, a));
    let fx = |x: int| scaled_coord(x, a.x as int, s.x as int, s.den as int);
    let fy = |y: int| scaled_coord(y, a.y as int, s.y as int, s.den as int);
    assert forall|i: int| 0 <= i < vs.len() implies (#[trigger] vs[i]).can_scale(s, a) by {
        assert(b.holds(vs[i], 0));
        lemma_scaled_ordered(b.min_x as int, vs[i].x as int, a.x as int, s.x as int, s.den as int);
        lemma_scaled_ordered(vs[i].x as int, b.max_x as int, a.x as int, s.x as int, s.den as int);
        lemma_scaled_ordered(b.min_y as int, vs[i].y as int, a.y as int, s.y as int, s.den as int);
        lemma_scaled_ordered(vs[i].y as int, b.max_y as int, a.y as int, s.y as int, s.den as int);
    }
    assert(xs(m) =~= xs(vs).map_values(fx)) by {
        assert forall|i: int| 0 <= i < vs.len() implies xs(m)[i] == xs(vs).map_values(fx)[i] by {
            assert(vs[i].can_scale(s, a));
        }
    }
    assert(ys(m) =~= ys(vs).map_values(fy)) by {
        assert forall|i: int| 0 <= i < vs.len() implies ys(m)[i] == ys(vs).map_values(fy)[i] by {
            assert(vs[i].can_scale(s, a));
        }
    }
    assert forall|p: int, q: int| p <= q implies (s.x >= 0 ==> #[trigger] fx(p) <= #[trigger] fx(q))
        && (s.x < 0 ==> fx(p) >= fx(q)) by {
        lemma_scaled_ordered(p, q, a.x as int, s.x as int, s.den as int);
    }
    assert forall|p: int, q: int| p <= q implies (s.y >= 0 ==> #[trigger] fy(p) <= #[trigger] fy(q))
        && (s.y < 0 ==> fy(p) >= fy(q)) by {
        lemma_scaled_ordered(p, q, a.y as int, s.y as int, s.den as int);
    }
    if s.x >= 0 {
        lemma_map_monotone(xs(vs), fx);
    } else {
        lemma_map_antitone(xs(vs), fx);
    }
    if s.y >= 0 {
        lemma_map_monotone(ys(vs), fy);
    } else {
        lemma_map_antitone(ys(vs), fy);
    }
    lemma_scaled_ordered(b.min_x as int, b.max_x as int, a.x as int, s.x as int, s.den as int);
    lemma_scaled_ordered(b.min_y as int, b.max_y as int, a.y as int, s.y as int, s.den as int);
}

/// A linear form over a box takes its extremes at corners: the result names
/// a corner below the value and a corner above it.
proof fn lemma_linear_in_box(x: int, y: int, x0: int, x1: int, y0: int, y1: int, p: int, q: int) -> (r: (
    int,
    int,
    int,
    int,
))
    requires
        x0 <= x <= x1,
        y0 <= y <= y1,
    ensures
        r.0 == x0 || r.0 == x1,
        r.1 == y0 || r.1 == y1,
        r.2 == x0 || r.2 == x1,
        r.3 == y0 || r.3 == y1,
        r.0 * p + r.1 * q <= x * p + y * q <= r.2 * p + r.3 * q,
{
    let (lo_x, hi_x) = if p >= 0 { (x0, x1) } else { (x1, x0) };
    let (lo_y, hi_y) = if q >= 0 { (y0, y1) } else { (y1, y0) };
    assert(lo_x * p <= x * p <= hi_x * p) by (nonlinear_arith)
        requires
            x0 <= x <= x1,
            p >= 0 ==> lo_x == x0 && hi_x == x1,
            p < 0 ==> lo_x == x1 && hi_x == x0,
    ;
    assert(lo_y * q <= y * q <= hi_y * q) by (nonlinear_arith)
        requires
            y0 <= y <= y1,
            q >= 0 ==> lo_y == y0 && hi_y == y1,
            q < 0 ==> lo_y == y1 && hi_y == y0,
    ;
    (lo_x, lo_y, hi_x, hi_y)
}

/// When the corners of a box stay in range under a rotation, so does every
/// point inside the box.
pub proof fn lemma_rotate_fits_point(b: BoundingBox, v: Vertex, r: Rotation, offset: Vertex)
    requires
        r.wf(),
        b.holds(v, 0),
        b.can_rotate(r, offset),
    ensures
        v.can_rotate(r, offset),
{
    let c = b.corners();
    let d = r.den as int;
    let (ax, ay, bx, by) = lemma_linear_in_box(v.x as int, v.y as int, b.min_x as int,
        b.max_x as int, b.min_y as int, b.max_y as int, r.m00 as int, r.m10 as int);
    let (ex, ey, fx, fy) = lemma_linear_in_box(v.x as int, v.y as int, b.min_x as int,
        b.max_x as int, b.min_y as int, b.max_y as int, r.m01 as int, r.m11 as int);
    let gx = v.x * r.m00 + v.y * r.m10;
    let gy = v.x * r.m01 + v.y * r.m11;
    vstd::arithmetic::div_mod::lemma_div_is_ordered(ax * r.m00 + ay * r.m10, gx, d);
    vstd::arithmetic::div_mod::lemma_div_is_ordered(gx, bx * r.m00 + by * r.m10, d);
    vstd::arithmetic::div_mod::lemma_div_is_ordered(ex * r.m01 + ey * r.m11, gy, d);
    vstd::arithmetic::div_mod::lemma_div_is_ordered(gy, fx * r.m01 + fy * r.m11, d);
    assert(c[0].can_rotate(r, offset));
    assert(c[1].can_rotate(r, offset));
    assert(c[2].can_rotate(r, offset));
    assert(c[3].can_rotate(r, offset));
}

/// When the corners of a bounding box stay in range under a rotation, so does
/// every vertex that the box bounds.
pub proof fn lemma_rotate_fits(b: BoundingBox, vs: Seq<Vertex>, r: Rotation, offset: Vertex)
    requires
        r.wf(),
        b.bounds(vs),
        b.can_rotate(r, offset),
    ensures
        forall|i: int| 0 <= i < vs.len() ==> (#[trigger] vs[i]).can_rotate(r, offset),
{
    lemma_bounds_hold(b, vs);
    assert forall|i: int| 0 <= i < vs.len() implies (#[trigger] vs[i]).can_rotate(r, offset) by {
        assert(b.holds(vs[i], 0));
        lemma_rotate_fits_point(b, vs[i], r, offset);
    }
}

/// A box inside `outer` can be moved, scaled or rotated wherever `outer` can.
pub proof fn lemma_inner_box_fits(inner: BoundingBox, outer: BoundingBox, d: Vertex, s: Scale, a: Vertex, r: Rotation, offset: Vertex)
    requires
        inner.is_ordered(),
        outer.min_x <= inner.min_x,
        inner.max_x <= outer.max_x,
        outer.min_y <= inner.min_y,
        inner.max_y <= outer.max_y,
    ensures
        outer.can_shift(d) ==> inner.can_shift(d),
        s.wf() && outer.can_scale(s, a) ==> inner.can_scale(s, a),
        r.wf() && outer.can_rotate(r, offset) ==> inner.can_rotate(r, offset),
{
    if s.wf() {
        lemma_scaled_ordered(outer.min_x as int, inner.min_x as int, a.x as int, s.x as int, s.den as int);
        lemma_scaled_ordered(inner.min_x as int, outer.max_x as int, a.x as int, s.x as int, s.den as int);
        lemma_scaled_ordered(outer.min_x as int, inner.max_x as int, a.x as int, s.x as int, s.den as int);
        lemma_scaled_ordered(inner.max_x as int, outer.max_x as int, a.x as int, s.x as int, s.den as int);
        lemma_scaled_ordered(outer.min_y as int, inner.min_y as int, a.y as int, s.y as int, s.den as int);
        lemma_scaled_ordered(inner.min_y as int, outer.max_y as int, a.y as int, s.y as int, s.den as int);
        lemma_scaled_ordered(outer.min_y as int, inner.max_y as int, a.y as int, s.y as int, s.den as int);
        lemma_scaled_ordered(inner.max_y as int, outer.max_y as int, a.y as int, s.y as int, s.den as int);
    }
    if r.wf() && outer.can_rotate(r, offset) {
        let c = inner.corners();
        assert forall|i: int| 0 <= i < 4 implies #[trigger] c[i].can_rotate(r, offset) by {
            assert(outer.holds(c[i], 0));
            lemma_rotate_fits_point(outer, c[i], r, offset);
        }
    }
}

/// The box computed for a vertex set has its bounds in order, and it is the
/// zero box exactly when the set is empty. (A non-empty set whose vertices all
/// sit at the origin also yields the zero box, so such sets are left out.)
pub proof fn law_compute_ordered_and_zero_iff_empty(vs: Seq<Vertex>, b: BoundingBox)
    requires
        b.bounds(vs),
        !(vs.len() > 0 && forall|i: int| 0 <= i < vs.len() ==> #[trigger] vs[i] == (Vertex { x: 0, y: 0 })),
    ensures
        b.is_ordered(),
        b == BoundingBox::zero() <==> vs.len() == 0,
{
    lemma_bounds_ordered(b, vs);
    if vs.len() > 0 && b == BoundingBox::zero() {
        lemma_bounds_hold(b, vs);
        assert forall|i: int| 0 <= i < vs.len() implies #[trigger] vs[i] == (Vertex { x: 0, y: 0 }) by {
            assert(b.holds(vs[i], 0));
        }
    }
}

/// Overlap of two boxes does not depend on their order.
pub proof fn law_intersect_symmetric(a: BoundingBox, b: BoundingBox)
    ensures
        a.overlaps(b) == b.overlaps(a),
{
}

/// The union of two boxes holds every corner of each, with no padding.
pub proof fn law_union_contains_both(a: BoundingBox, b: BoundingBox)
    requires
        a.is_ordered(),
        b.is_ordered(),
    ensures
        forall|i: int| 0 <= i < 4 ==> a.joined(b).holds(#[trigger] a.corners()[i], 0),
        forall|i: int| 0 <= i < 4 ==> a.joined(b).holds(#[trigger] b.corners()[i], 0),
{
}

/// Moving a box by `d` and then by `-d` gives the box back.
pub proof fn law_offset_round_trip(b: BoundingBox, d: Vertex)
    requires
        b.can_shift(d),
        d.x > i64::MIN,
        d.y > i64::MIN,
    ensures
        b.shifted(d).can_shift(Vertex { x: (-d.x) as i64, y: (-d.y) as i64 }),
        b.shifted(d).shifted(Vertex { x: (-d.x) as i64, y: (-d.y) as i64 }) == b,
{
}

} // verus!

