use vstd::prelude::*;

verus! {

/// A point in the plane, in fixed-point units.
#[derive(Clone, Copy, Debug, PartialEq, Eq, Structural)]
pub struct Vertex {
    pub x: i64,
    pub y: i64,
}

impl Vertex {
    pub open spec fn can_add(self, d: Vertex) -> bool {
        fits_i64(self.x + d.x) && fits_i64(self.y + d.y)
    }

    pub open spec fn plus(self, d: Vertex) -> Vertex {
        Vertex { x: (self.x + d.x) as i64, y: (self.y + d.y) as i64 }
    }

    pub open spec fn can_scale(self, s: Scale, a: Vertex) -> bool {
        &&& fits_i64(scaled_coord(self.x as int, a.x as int, s.x as int, s.den as int))
        &&& fits_i64(scaled_coord(self.y as int, a.y as int, s.y as int, s.den as int))
    }

    /// `(self - a) * s + a`, per axis.
    pub open spec fn scaled(self, s: Scale, a: Vertex) -> Vertex {
        Vertex {
            x: scaled_coord(self.x as int, a.x as int, s.x as int, s.den as int) as i64,
            y: scaled_coord(self.y as int, a.y as int, s.y as int, s.den as int) as i64,
        }
    }

    pub open spec fn can_rotate(self, r: Rotation, offset: Vertex) -> bool {
        &&& fits_i64(offset.x + r.apply_x(self.x as int, self.y as int))
        &&& fits_i64(offset.y + r.apply_y(self.x as int, self.y as int))
    }

    /// `offset + self * r`.
    pub open spec fn rotated(self, r: Rotation, offset: Vertex) -> Vertex {
        Vertex {
            x: (offset.x + r.apply_x(self.x as int, self.y as int)) as i64,
            y: (offset.y + r.apply_y(self.x as int, self.y as int)) as i64,
        }
    }
}

/// A per-axis scale factor `x / den`, `y / den`. A negative numerator flips
/// that axis.
#[derive(Clone, Copy, Debug, PartialEq, Eq, Structural)]
pub struct Scale {
    pub x: i32,
    pub y: i32,
    pub den: i32,
}

/// A 2x2 matrix `[[m00, m01], [m10, m11]] / den`, applied to row vectors:
/// `(x, y) -> (x * m00 + y * m10, x * m01 + y * m11) / den`.
#[derive(Clone, Copy, Debug, PartialEq, Eq, Structural)]
pub struct Rotation {
    pub m00: i32,
    pub m01: i32,
    pub m10: i32,
    pub m11: i32,
    pub den: i32,
}

pub open spec fn fits_i64(v: int) -> bool {
    i64::MIN <= v <= i64::MAX
}

/// `(v - anchor) * num / den + anchor`, rounding toward negative infinity.
pub open spec fn scaled_coord(v: int, anchor: int, num: int, den: int) -> int {
    (v - anchor) * num / den + anchor
}

impl Scale {
    pub open spec fn wf(self) -> bool {
        self.den > 0
    }

    pub open spec fn is_identity(self) -> bool {
        self.x == self.den && self.y == self.den
    }

    /// The identity factor.
    pub fn identity() -> (r: Scale)
        ensures
            r.wf(),
            r.is_identity(),
            r.x == 1,
    {
        Scale { x: 1, y: 1, den: 1 }
    }
}

impl Rotation {
    /// A positive denominator, and no entry larger than it in size, as in
    /// any rotation matrix.
    pub open spec fn wf(self) -> bool {
        &&& self.den > 0
        &&& -self.den <= self.m00 <= self.den
        &&& -self.den <= self.m01 <= self.den
        &&& -self.den <= self.m10 <= self.den
        &&& -self.den <= self.m11 <= self.den
    }

    pub open spec fn is_identity(self) -> bool {
        self.m00 == self.den && self.m01 == 0 && self.m10 == 0 && self.m11 == self.den
    }

    /// The x coordinate of `(x, y)` times the matrix, rounded down.
    pub open spec fn apply_x(self, x: int, y: int) -> int {
        (x * self.m00 + y * self.m10) / (self.den as int)
    }

    /// The y coordinate of `(x, y)` times the matrix, rounded down.
    pub open spec fn apply_y(self, x: int, y: int) -> int {
        (x * self.m01 + y * self.m11) / (self.den as int)
    }

    /// The identity matrix.
    pub fn identity() -> (r: Rotation)
        ensures
            r.wf(),
            r.is_identity(),
    {
        Rotation { m00: 1, m01: 0, m10: 0, m11: 1, den: 1 }
    }
}

/// Bound on the intermediate coordinates that the exact arithmetic handles.
pub open spec fn small(v: int) -> bool {
    -0x4_0000_0000_0000_0000 <= v <= 0x4_0000_0000_0000_0000
}

/// Bound on any coordinate that a transform of small coordinates yields.
pub open spec fn bounded(v: int) -> bool {
    -0x10_0000_0000_0000_0000_0000_0000 <= v <= 0x10_0000_0000_0000_0000_0000_0000
}

/// The range of what the exact transforms below yield.
pub open spec fn in_transform_range(v: int) -> bool {
    -0x8_0000_0000_0000_0000_0000_0000 <= v <= 0x8_0000_0000_0000_0000_0000_0000
}

/// `(v - anchor) * num / den + anchor`, exactly.
pub fn scale_coord(v: i128, anchor: i128, num: i32, den: i32) -> (r: i128)
    requires
        den > 0,
        small(v as int),
        small(anchor as int),
    ensures
        r == scaled_coord(v as int, anchor as int, num as int, den as int),
        in_transform_range(r as int),
{
    let diff: i128 = v - anchor;
    proof {
        assert(-0x8_0000_0000_0000_0000 <= diff <= 0x8_0000_0000_0000_0000);
        assert(-0x8_0000_0000_0000_0000 * 0x8000_0000 <= diff * (num as int) <= 0x8_0000_0000_0000_0000
            * 0x8000_0000) by (nonlinear_arith)
            requires
                -0x8_0000_0000_0000_0000 <= diff <= 0x8_0000_0000_0000_0000,
                -0x8000_0000 <= num <= 0x8000_0000,
        ;
    }
    let prod: i128 = diff * (num as i128);
    proof {
        lemma_div_bounds(prod as int, den as int);
    }
    let q: i128 = match prod.checked_div_euclid(den as i128) {
        Some(q) => q,
        None => 0,
    };
    proof {
        assert((prod as int) / (den as int) == q);
    }
    q + anchor
}

/// `(x, y)` times the matrix, rounded down.
pub fn rotate_coords(r: &Rotation, x: i128, y: i128) -> (res: (i128, i128))
    requires
        r.wf(),
        small(x as int),
        small(y as int),
    ensures
        res.0 == r.apply_x(x as int, y as int),
        res.1 == r.apply_y(x as int, y as int),
        in_transform_range(res.0 as int),
        in_transform_range(res.1 as int),
{
    proof {
        lemma_small_product(x as int, r.m00 as int);
        lemma_small_product(x as int, r.m01 as int);
        lemma_small_product(y as int, r.m10 as int);
        lemma_small_product(y as int, r.m11 as int);
    }
    let px: i128 = x * (r.m00 as i128) + y * (r.m10 as i128);
    let py: i128 = x * (r.m01 as i128) + y * (r.m11 as i128);
    proof {
        lemma_div_bounds(px as int, r.den as int);
        lemma_div_bounds(py as int, r.den as int);
    }
    let qx: i128 = match px.checked_div_euclid(r.den as i128) {
        Some(q) => q,
        None => 0,
    };
    let qy: i128 = match py.checked_div_euclid(r.den as i128) {
        Some(q) => q,
        None => 0,
    };
    (qx, qy)
}

/// A rotation matrix moves no coordinate further than the sum of the sizes
/// of both.
pub proof fn lemma_rotation_bound(r: Rotation, x: int, y: int, k: int)
    requires
        r.wf(),
        -k <= x <= k,
        -k <= y <= k,
    ensures
        -2 * k <= r.apply_x(x, y) <= 2 * k,
        -2 * k <= r.apply_y(x, y) <= 2 * k,
{
    let d = r.den as int;
    let (a0, a1, b0, b1) = (r.m00 as int, r.m10 as int, r.m01 as int, r.m11 as int);
    assert(d * (-2 * k) <= x * a0 + y * a1 <= d * (2 * k)) by (nonlinear_arith)
        requires
            -k <= x <= k,
            -k <= y <= k,
            -d <= a0 <= d,
            -d <= a1 <= d,
    ;
    assert(d * (-2 * k) <= x * b0 + y * b1 <= d * (2 * k)) by (nonlinear_arith)
        requires
            -k <= x <= k,
            -k <= y <= k,
            -d <= b0 <= d,
            -d <= b1 <= d,
    ;
    vstd::arithmetic::div_mod::lemma_div_multiples_vanish(-2 * k, d);
    vstd::arithmetic::div_mod::lemma_div_multiples_vanish(2 * k, d);
    vstd::arithmetic::div_mod::lemma_div_is_ordered(d * (-2 * k), x * a0 + y * a1, d);
    vstd::arithmetic::div_mod::lemma_div_is_ordered(x * a0 + y * a1, d * (2 * k), d);
    vstd::arithmetic::div_mod::lemma_div_is_ordered(d * (-2 * k), x * b0 + y * b1, d);
    vstd::arithmetic::div_mod::lemma_div_is_ordered(x * b0 + y * b1, d * (2 * k), d);
}

impl Rotation {
    /// The transposed matrix: for a rotation, the turn the other way.
    pub open spec fn transposed(self) -> Rotation {
        Rotation { m00: self.m00, m01: self.m10, m10: self.m01, m11: self.m11, den: self.den }
    }

    /// An exact quarter-turn (or identity, or reflection) matrix: whole
    /// entries over 1, orthonormal rows.
    pub open spec fn is_exact_orthogonal(self) -> bool {
        &&& self.den == 1
        &&& self.m00 * self.m00 + self.m01 * self.m01 == 1
        &&& self.m10 * self.m10 + self.m11 * self.m11 == 1
        &&& self.m00 * self.m10 + self.m01 * self.m11 == 0
    }
}

/// `p` turned about `c`: `(c - c * r) + p * r`, the offset that turning about
/// a center gives `rot_offset + v * r`.
pub open spec fn turned_about(p: (int, int), c: (int, int), r: Rotation) -> (int, int) {
    (
        c.0 - r.apply_x(c.0, c.1) + r.apply_x(p.0, p.1),
        c.1 - r.apply_y(c.0, c.1) + r.apply_y(p.0, p.1),
    )
}

/// Turning a point about a center by an exact orthogonal matrix and then
/// about the same center by its transpose gives the point back exactly.
pub proof fn law_rotation_round_trip(p: (int, int), c: (int, int), r: Rotation)
    requires
        r.is_exact_orthogonal(),
    ensures
        turned_about(turned_about(p, c, r), c, r.transposed()) == p,
{
    let t = r.transposed();
    let (a, b, e, f) = (r.m00 as int, r.m01 as int, r.m10 as int, r.m11 as int);
    assert forall|x: int, y: int| r.apply_x(x, y) == x * a + y * e && r.apply_y(x, y) == x * b + y * f
        && t.apply_x(x, y) == x * a + y * b && t.apply_y(x, y) == x * e + y * f by {
        vstd::arithmetic::div_mod::lemma_div_basics(x * a + y * e);
        vstd::arithmetic::div_mod::lemma_div_basics(x * b + y * f);
        vstd::arithmetic::div_mod::lemma_div_basics(x * a + y * b);
        vstd::arithmetic::div_mod::lemma_div_basics(x * e + y * f);
    }
    let q = turned_about(p, c, r);
    assert(q.0 == c.0 + (p.0 - c.0) * a + (p.1 - c.1) * e) by (nonlinear_arith)
        requires
            q.0 == c.0 - (c.0 * a + c.1 * e) + (p.0 * a + p.1 * e),
    ;
    assert(q.1 == c.1 + (p.0 - c.0) * b + (p.1 - c.1) * f) by (nonlinear_arith)
        requires
            q.1 == c.1 - (c.0 * b + c.1 * f) + (p.0 * b + p.1 * f),
    ;
    let w = turned_about(q, c, t);
    assert(w.0 == c.0 + (q.0 - c.0) * a + (q.1 - c.1) * b) by (nonlinear_arith)
        requires
            w.0 == c.0 - (c.0 * a + c.1 * b) + (q.0 * a + q.1 * b),
    ;
    assert(w.1 == c.1 + (q.0 - c.0) * e + (q.1 - c.1) * f) by (nonlinear_arith)
        requires
            w.1 == c.1 - (c.0 * e + c.1 * f) + (q.0 * e + q.1 * f),
    ;
    let (dx, dy) = (p.0 - c.0, p.1 - c.1);
    assert((dx * a + dy * e) * a + (dx * b + dy * f) * b == dx) by (nonlinear_arith)
        requires
            a * a + b * b == 1,
            a * e + b * f == 0,
    ;
    assert((dx * a + dy * e) * e + (dx * b + dy * f) * f == dy) by (nonlinear_arith)
        requires
            e * e + f * f == 1,
            a * e + b * f == 0,
    ;
}

/// `d * (q - c) == (p - c) * col + s` for one coordinate of a turn about `c`,
/// where `s` is what the two roundings leave, `-d < s < d`.
proof fn lemma_turn_coordinate(
    p0: int,
    p1: int,
    c0: int,
    c1: int,
    u: int,
    v: int,
    d: int,
) -> (s: int)
    requires
        d > 0,
    ensures
        -d < s < d,
        d * (c0 - (c0 * u + c1 * v) / d + (p0 * u + p1 * v) / d - c0) == (p0 - c0) * u + (p1 - c1) * v
            + s,
{
    let cc = c0 * u + c1 * v;
    let pp = p0 * u + p1 * v;
    vstd::arithmetic::div_mod::lemma_fundamental_div_mod(cc, d);
    vstd::arithmetic::div_mod::lemma_fundamental_div_mod(pp, d);
    vstd::arithmetic::div_mod::lemma_mod_bound(cc, d);
    vstd::arithmetic::div_mod::lemma_mod_bound(pp, d);
    let s = cc % d - pp % d;
    assert(d * (c0 - cc / d + pp / d - c0) == pp - cc + s) by (nonlinear_arith)
        requires
            cc == d * (cc / d) + cc % d,
            pp == d * (pp / d) + pp % d,
            s == cc % d - pp % d,
    ;
    assert(pp - cc == (p0 - c0) * u + (p1 - c1) * v) by (nonlinear_arith)
        requires
            cc == c0 * u + c1 * v,
            pp == p0 * u + p1 * v,
    ;
    s
}

/// One coordinate of the error of a round trip: with `d * q0 = dx * a + dy * e
/// + s0`, `d * q1 = dx * b + dy * f + s1` and `d * w = q0 * a + q1 * b + t0`,
/// `d * d * (w - dx) = s0 * a + s1 * b + d * t0` when `a * a + b * b = d * d`
/// and `a * e + b * f = 0`.
proof fn lemma_round_trip_error(
    d: int,
    dx: int,
    dy: int,
    q0: int,
    q1: int,
    w: int,
    a: int,
    b: int,
    e: int,
    f: int,
    s0: int,
    s1: int,
    t0: int,
)
    requires
        d * q0 == dx * a + dy * e + s0,
        d * q1 == dx * b + dy * f + s1,
        d * w == q0 * a + q1 * b + t0,
        a * a + b * b == d * d,
        a * e + b * f == 0,
    ensures
        d * d * (w - dx) == s0 * a + s1 * b + d * t0,
{
    assert(d * d * (w - dx) == d * (d * w) - d * d * dx) by (nonlinear_arith);
    assert(d * (d * w) == (d * q0) * a + (d * q1) * b + d * t0) by (nonlinear_arith)
        requires
            d * w == q0 * a + q1 * b + t0,
    ;
    assert((dx * a + dy * e + s0) * a == dx * (a * a) + dy * (a * e) + s0 * a) by (nonlinear_arith);
    assert((dx * b + dy * f + s1) * b == dx * (b * b) + dy * (b * f) + s1 * b) by (nonlinear_arith);
    assert(dx * (a * a) + dx * (b * b) == dx * (a * a + b * b)) by (nonlinear_arith);
    assert(dy * (a * e) + dy * (b * f) == dy * (a * e + b * f)) by (nonlinear_arith);
    assert(dx * (a * a + b * b) == d * d * dx) by (nonlinear_arith)
        requires
            a * a + b * b == d * d,
    ;
    assert(dy * (a * e + b * f) == 0) by (nonlinear_arith)
        requires
            a * e + b * f == 0,
    ;
}

/// Turning a point about a center by a rotation and back by its transpose
/// brings it back to within two units on each axis: each turn rounds down
/// once. The rows of the matrix must be orthogonal and of length `den`.
pub proof fn law_rotation_round_trip_within(p: (int, int), c: (int, int), r: Rotation)
    requires
        r.wf(),
        r.m00 * r.m00 + r.m01 * r.m01 == r.den * r.den,
        r.m10 * r.m10 + r.m11 * r.m11 == r.den * r.den,
        r.m00 * r.m10 + r.m01 * r.m11 == 0,
    ensures
        -2 <= turned_about(turned_about(p, c, r), c, r.transposed()).0 - p.0 <= 2,
        -2 <= turned_about(turned_about(p, c, r), c, r.transposed()).1 - p.1 <= 2,
{
    let d = r.den as int;
    let (a, b, e, f) = (r.m00 as int, r.m01 as int, r.m10 as int, r.m11 as int);
    let q = turned_about(p, c, r);
    let s0 = lemma_turn_coordinate(p.0, p.1, c.0, c.1, a, e, d);
    let s1 = lemma_turn_coordinate(p.0, p.1, c.0, c.1, b, f, d);
    let w = turned_about(q, c, r.transposed());
    let t0 = lemma_turn_coordinate(q.0, q.1, c.0, c.1, a, b, d);
    let t1 = lemma_turn_coordinate(q.0, q.1, c.0, c.1, e, f, d);
    let (dx, dy) = (p.0 - c.0, p.1 - c.1);
    let (ex, ey) = (w.0 - p.0, w.1 - p.1);
    lemma_round_trip_error(d, dx, dy, q.0 - c.0, q.1 - c.1, w.0 - c.0, a, b, e, f, s0, s1, t0);
    assert(f * b + e * a == 0) by (nonlinear_arith)
        requires
            a * e + b * f == 0,
    ;
    lemma_round_trip_error(d, dy, dx, q.1 - c.1, q.0 - c.0, w.1 - c.1, f, e, b, a, s1, s0, t1);
    assert(-2 <= ex <= 2) by (nonlinear_arith)
        requires
            d > 0,
            d * d * ex == s0 * a + s1 * b + d * t0,
            -d < s0 < d,
            -d < s1 < d,
            -d < t0 < d,
            -d <= a <= d,
            -d <= b <= d,
    ;
    assert(-2 <= ey <= 2) by (nonlinear_arith)
        requires
            d > 0,
            d * d * ey == s0 * e + s1 * f + d * t1,
            -d < s0 < d,
            -d < s1 < d,
            -d < t1 < d,
            -d <= e <= d,
            -d <= f <= d,
    ;
}

proof fn lemma_small_product(v: int, m: int)
    requires
        small(v),
        -0x8000_0000 <= m <= 0x8000_0000,
    ensures
        -0x2_0000_0000_0000_0000_0000_0000 <= v * m <= 0x2_0000_0000_0000_0000_0000_0000,
{
    assert(-0x4_0000_0000_0000_0000 * 0x8000_0000 <= v * m <= 0x4_0000_0000_0000_0000 * 0x8000_0000)
        by (nonlinear_arith)
        requires
            small(v),
            -0x8000_0000 <= m <= 0x8000_0000,
    ;
}

proof fn lemma_div_bounds(p: int, d: int)
    requires
        d > 0,
    ensures
        p >= 0 ==> 0 <= p / d <= p,
        p < 0 ==> p <= p / d < 0,
{
    if p >= 0 {
        vstd::arithmetic::div_mod::lemma_div_pos_is_pos(p, d);
        vstd::arithmetic::div_mod::lemma_div_is_ordered_by_denominator(p, 1, d);
    } else {
        vstd::arithmetic::div_mod::lemma_div_is_ordered(p, 0, d);
        assert(p / d < 0) by {
            vstd::arithmetic::div_mod::lemma_fundamental_div_mod(p, d);
            vstd::arithmetic::div_mod::lemma_mod_bound(p, d);
            assert(p == d * (p / d) + p % d);
            if p / d >= 0 {
                assert(d * (p / d) >= 0) by (nonlinear_arith)
                    requires
                        d > 0,
                        p / d >= 0,
                ;
            }
        }
        assert(p <= p / d) by {
            vstd::arithmetic::div_mod::lemma_fundamental_div_mod(p, d);
            vstd::arithmetic::div_mod::lemma_mod_bound(p, d);
            assert(d * (p / d + 1) <= p / d + 1) by (nonlinear_arith)
                requires
                    d > 0,
                    p / d < 0,
            ;
            assert(d * (p / d + 1) == d * (p / d) + d) by (nonlinear_arith);
        }
    }
}

} // verus!
