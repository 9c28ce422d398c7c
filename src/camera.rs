use vstd::prelude::*;

verus! {

/// Fixed-point units in one grid cell. It is divisible by 2^10, 3 and 25, so
/// that hundredths and seventy-fifths of a cell are exact.
pub const UNIT: i64 = 76800;

/// The largest length, in fixed-point units, that a direction vector may have.
pub const VEC_LIMIT: i64 = 4294967296;

/// The largest magnitude of a position coordinate, in fixed-point units.
pub const POS_LIMIT: i64 = 281474976710656;

/// A 2D vector in fixed-point units.
#[derive(Clone, Copy, Debug, PartialEq, Eq, Structural)]
pub struct Vec2i {
    pub x: i64,
    pub y: i64,
}

/// `n / d` rounded toward zero (for `d > 0`).
pub open spec fn div_toward_zero(n: int, d: int) -> int {
    if n >= 0 { n / d } else { -((-n) / d) }
}

pub open spec fn dot(a: (int, int), b: (int, int)) -> int {
    a.0 * b.0 + a.1 * b.1
}

pub open spec fn cross(a: (int, int), b: (int, int)) -> int {
    a.0 * b.1 - a.1 * b.0
}

impl Vec2i {
    pub open spec fn pair(self) -> (int, int) {
        (self.x as int, self.y as int)
    }

    pub open spec fn norm2(self) -> int {
        dot(self.pair(), self.pair())
    }

    /// No longer than `VEC_LIMIT`.
    pub open spec fn wf(self) -> bool {
        self.norm2() <= VEC_LIMIT * VEC_LIMIT
    }
}

/// A rotation given by its cosine and sine in fixed-point units; it never
/// lengthens a vector.
#[derive(Clone, Copy, Debug, PartialEq, Eq, Structural)]
pub struct Rotation {
    pub cos: i64,
    pub sin: i64,
}

impl Rotation {
    pub open spec fn pair(self) -> (int, int) {
        (self.cos as int, self.sin as int)
    }

    pub open spec fn wf(self) -> bool {
        dot(self.pair(), self.pair()) <= UNIT * UNIT
    }

    /// The rotation by zero.
    pub fn identity() -> (r: Rotation)
        ensures
            r.cos == UNIT && r.sin == 0,
            r.wf(),
    {
        Rotation { cos: UNIT, sin: 0 }
    }

    /// The rotation with the given cosine and sine, if it does not lengthen
    /// vectors.
    pub fn new(cos: i64, sin: i64) -> (r: Option<Rotation>)
        ensures
            r is Some <==> dot((cos as int, sin as int), (cos as int, sin as int)) <= UNIT * UNIT,
            r matches Some(q) ==> q.cos == cos && q.sin == sin && q.wf(),
    {
        if cos < -UNIT || cos > UNIT || sin < -UNIT || sin > UNIT {
            proof {
                assert(dot((cos as int, sin as int), (cos as int, sin as int)) > UNIT * UNIT) by (nonlinear_arith)
                    requires cos < -UNIT || cos > UNIT || sin < -UNIT || sin > UNIT;
            }
            return None;
        }
        let c = cos as i128;
        let s = sin as i128;
        let u = UNIT as i128;
        assert(0 <= c * c <= 5898240000) by (nonlinear_arith)
            requires -76800 <= c <= 76800;
        assert(0 <= s * s <= 5898240000) by (nonlinear_arith)
            requires -76800 <= s <= 76800;
        assert(u * u == 5898240000);
        if c * c + s * s <= u * u {
            Some(Rotation { cos, sin })
        } else {
            None
        }
    }
}

/// `v` rotated by `r` before scaling back to fixed-point units.
pub open spec fn rotated_exact(v: (int, int), r: Rotation) -> (int, int) {
    (v.0 * r.cos - v.1 * r.sin, v.0 * r.sin + v.1 * r.cos)
}

/// `v` rotated by `r`, each coordinate rounded toward zero.
pub open spec fn rotated(v: Vec2i, r: Rotation) -> (int, int) {
    let e = rotated_exact(v.pair(), r);
    (div_toward_zero(e.0, UNIT as int), div_toward_zero(e.1, UNIT as int))
}

pub(crate) proof fn lemma_coord_bound(x: int, y: int)
    requires
        x * x + y * y <= VEC_LIMIT * VEC_LIMIT,
    ensures
        -VEC_LIMIT <= x <= VEC_LIMIT,
        -VEC_LIMIT <= y <= VEC_LIMIT,
{
    assert(-VEC_LIMIT <= x <= VEC_LIMIT) by (nonlinear_arith)
        requires x * x + y * y <= VEC_LIMIT * VEC_LIMIT;
    assert(-VEC_LIMIT <= y <= VEC_LIMIT) by (nonlinear_arith)
        requires x * x + y * y <= VEC_LIMIT * VEC_LIMIT;
}

/// Rounding toward zero never makes a value larger in magnitude.
proof fn lemma_div_toward_zero_square(n: int, d: int)
    requires
        d > 0,
    ensures
        div_toward_zero(n, d) * div_toward_zero(n, d) * (d * d) <= n * n,
        n >= 0 ==> div_toward_zero(n, d) * d <= n < div_toward_zero(n, d) * d + d,
        n < 0 ==> div_toward_zero(n, d) * d - d < n <= div_toward_zero(n, d) * d,
{
    let q = div_toward_zero(n, d);
    if n >= 0 {
        vstd::arithmetic::div_mod::lemma_fundamental_div_mod(n, d);
        vstd::arithmetic::div_mod::lemma_mod_pos_bound(n, d);
        assert(d * (n / d) == q * d) by (nonlinear_arith)
            requires q == n / d;
        assert(q >= 0) by (nonlinear_arith)
            requires q * d >= 0, d > 0;
        lemma_square_le(q * d, n);
        lemma_mul4(q, d, q, d);
    } else {
        let m = -n;
        vstd::arithmetic::div_mod::lemma_fundamental_div_mod(m, d);
        vstd::arithmetic::div_mod::lemma_mod_pos_bound(m, d);
        let p = m / d;
        assert(d * (m / d) == p * d) by (nonlinear_arith)
            requires p == m / d;
        assert(p >= 0) by (nonlinear_arith)
            requires p * d >= 0, d > 0;
        assert(q == -p);
        assert(q * d == -(p * d)) by (nonlinear_arith)
            requires q == -p;
        assert(q * q * (d * d) == p * p * (d * d)) by (nonlinear_arith)
            requires q == -p;
        lemma_square_le(p * d, m);
        lemma_mul4(p, d, p, d);
        assert(n * n == m * m) by (nonlinear_arith)
            requires m == -n;
    }
}

proof fn lemma_square_le(m: int, n: int)
    requires
        0 <= m <= n,
    ensures
        m * m <= n * n,
{
    assert(m * m <= n * n) by (nonlinear_arith)
        requires 0 <= m <= n;
}

proof fn lemma_mul4(p: int, q: int, r: int, t: int)
    ensures
        (p * q) * (r * t) == (p * r) * (q * t),
        (p * q) * (r * t) == (p * t) * (q * r),
{
    assert((p * q) * (r * t) == (p * r) * (q * t)) by (nonlinear_arith);
    assert((p * q) * (r * t) == (p * t) * (q * r)) by (nonlinear_arith);
}

proof fn lemma_expand(p: int, q: int, r: int, t: int)
    ensures
        (p - q) * (r - t) == p * r - p * t - q * r + q * t,
        (p + q) * (r + t) == p * r + p * t + q * r + q * t,
        (p - q) * (r + t) == p * r + p * t - q * r - q * t,
        (p + q) * (r - t) == p * r - p * t + q * r - q * t,
{
    assert((p - q) * (r - t) == p * r - p * t - q * r + q * t) by (nonlinear_arith);
    assert((p + q) * (r + t) == p * r + p * t + q * r + q * t) by (nonlinear_arith);
    assert((p - q) * (r + t) == p * r + p * t - q * r - q * t) by (nonlinear_arith);
    assert((p + q) * (r - t) == p * r - p * t + q * r - q * t) by (nonlinear_arith);
}

proof fn lemma_distribute(p: int, q: int, k: int)
    ensures
        (p + q) * k == p * k + q * k,
        (p - q) * k == p * k - q * k,
        k * (p + q) == k * p + k * q,
{
    assert((p + q) * k == p * k + q * k) by (nonlinear_arith);
    assert((p - q) * k == p * k - q * k) by (nonlinear_arith);
    assert(k * (p + q) == k * p + k * q) by (nonlinear_arith);
}

/// Rotating multiplies squared lengths, dot and cross products by the
/// rotation's squared length.
proof fn lemma_rotation_scales_products(a: (int, int), b: (int, int), r: Rotation)
    ensures
        dot(rotated_exact(a, r), rotated_exact(b, r)) == dot(a, b) * dot(r.pair(), r.pair()),
        cross(rotated_exact(a, r), rotated_exact(b, r)) == cross(a, b) * dot(r.pair(), r.pair()),
{
    let c = r.cos as int;
    let s = r.sin as int;
    let k = c * c + s * s;
    lemma_expand(a.0 * c, a.1 * s, b.0 * c, b.1 * s);
    lemma_expand(a.0 * s, a.1 * c, b.0 * s, b.1 * c);
    lemma_expand(a.0 * c, a.1 * s, b.0 * s, b.1 * c);
    lemma_expand(a.0 * s, a.1 * c, b.0 * c, b.1 * s);
    lemma_mul4(a.0, c, b.0, c);
    lemma_mul4(a.0, c, b.1, s);
    lemma_mul4(a.1, s, b.0, c);
    lemma_mul4(a.1, s, b.1, s);
    lemma_mul4(a.0, s, b.0, s);
    lemma_mul4(a.0, s, b.1, c);
    lemma_mul4(a.1, c, b.0, s);
    lemma_mul4(a.1, c, b.1, c);
    lemma_mul4(a.0, c, b.0, s);
    lemma_mul4(a.0, s, b.1, s);
    lemma_mul4(a.1, s, b.0, s);
    lemma_mul4(a.1, c, b.1, s);
    lemma_mul4(a.0, s, b.0, c);
    lemma_mul4(a.0, c, b.1, c);
    lemma_mul4(a.1, c, b.0, c);
    lemma_mul4(a.1, s, b.1, c);
    lemma_distribute(a.0 * b.0, a.1 * b.1, k);
    lemma_distribute(a.0 * b.1, a.1 * b.0, k);
    lemma_distribute(c * c, s * s, a.0 * b.0);
    lemma_distribute(c * c, s * s, a.1 * b.1);
    lemma_distribute(c * c, s * s, a.0 * b.1);
    lemma_distribute(c * c, s * s, a.1 * b.0);
    assert(c * s == s * c) by (nonlinear_arith);
    assert((a.0 * b.0) * (c * c) == (c * c) * (a.0 * b.0)) by (nonlinear_arith);
    assert((a.0 * b.0) * (s * s) == (s * s) * (a.0 * b.0)) by (nonlinear_arith);
    assert((a.1 * b.1) * (c * c) == (c * c) * (a.1 * b.1)) by (nonlinear_arith);
    assert((a.1 * b.1) * (s * s) == (s * s) * (a.1 * b.1)) by (nonlinear_arith);
    assert((a.0 * b.1) * (c * c) == (c * c) * (a.0 * b.1)) by (nonlinear_arith);
    assert((a.0 * b.1) * (s * s) == (s * s) * (a.0 * b.1)) by (nonlinear_arith);
    assert((a.1 * b.0) * (c * c) == (c * c) * (a.1 * b.0)) by (nonlinear_arith);
    assert((a.1 * b.0) * (s * s) == (s * s) * (a.1 * b.0)) by (nonlinear_arith);
}

/// Turning `facing` and `plane` by one rotation keeps their relative angle
/// and their lengths: before rounding, squared lengths, the dot product and
/// the cross product are all multiplied by the same factor, the rotation's
/// squared length (`UNIT * UNIT` for an exact rotation); rounding then moves
/// each coordinate by less than one fixed-point unit.
pub proof fn lemma_rotation_keeps_shape(facing: Vec2i, plane: Vec2i, r: Rotation)
    ensures
        ({
            let k = dot(r.pair(), r.pair());
            let ef = rotated_exact(facing.pair(), r);
            let ep = rotated_exact(plane.pair(), r);
            &&& dot(ef, ef) == facing.norm2() * k
            &&& dot(ep, ep) == plane.norm2() * k
            &&& dot(ef, ep) == dot(facing.pair(), plane.pair()) * k
            &&& cross(ef, ep) == cross(facing.pair(), plane.pair()) * k
            &&& -UNIT < rotated(facing, r).0 * UNIT - ef.0 < UNIT
            &&& -UNIT < rotated(facing, r).1 * UNIT - ef.1 < UNIT
            &&& -UNIT < rotated(plane, r).0 * UNIT - ep.0 < UNIT
            &&& -UNIT < rotated(plane, r).1 * UNIT - ep.1 < UNIT
        }),
{
    lemma_rotation_scales_products(facing.pair(), facing.pair(), r);
    lemma_rotation_scales_products(plane.pair(), plane.pair(), r);
    lemma_rotation_scales_products(facing.pair(), plane.pair(), r);
    let ef = rotated_exact(facing.pair(), r);
    let ep = rotated_exact(plane.pair(), r);
    lemma_div_toward_zero_square(ef.0, UNIT as int);
    lemma_div_toward_zero_square(ef.1, UNIT as int);
    lemma_div_toward_zero_square(ep.0, UNIT as int);
    lemma_div_toward_zero_square(ep.1, UNIT as int);
}

/// Rotates `v` by `r`, rounding each coordinate toward zero.
pub fn rotate_vec(v: Vec2i, r: Rotation) -> (out: Vec2i)
    requires
        v.wf(),
        r.wf(),
    ensures
        out.pair() == rotated(v, r),
        out.norm2() <= v.norm2(),
        out.wf(),
{
    proof {
        lemma_coord_bound(v.x as int, v.y as int);
        assert(-UNIT <= r.cos <= UNIT && -UNIT <= r.sin <= UNIT) by (nonlinear_arith)
            requires r.cos * r.cos + r.sin * r.sin <= UNIT * UNIT;
    }
    let x = v.x as i128;
    let y = v.y as i128;
    let c = r.cos as i128;
    let s = r.sin as i128;
    assert(-VEC_LIMIT * UNIT <= x * c <= VEC_LIMIT * UNIT) by (nonlinear_arith)
        requires -VEC_LIMIT <= x <= VEC_LIMIT, -UNIT <= c <= UNIT;
    assert(-VEC_LIMIT * UNIT <= y * s <= VEC_LIMIT * UNIT) by (nonlinear_arith)
        requires -VEC_LIMIT <= y <= VEC_LIMIT, -UNIT <= s <= UNIT;
    assert(-VEC_LIMIT * UNIT <= x * s <= VEC_LIMIT * UNIT) by (nonlinear_arith)
        requires -VEC_LIMIT <= x <= VEC_LIMIT, -UNIT <= s <= UNIT;
    assert(-VEC_LIMIT * UNIT <= y * c <= VEC_LIMIT * UNIT) by (nonlinear_arith)
        requires -VEC_LIMIT <= y <= VEC_LIMIT, -UNIT <= c <= UNIT;
    let ex = x * c - y * s;
    let ey = x * s + y * c;
    let qx = div_toward_zero_i128(ex);
    let qy = div_toward_zero_i128(ey);
    proof {
        let e = rotated_exact(v.pair(), r);
        lemma_div_toward_zero_square(e.0, UNIT as int);
        lemma_div_toward_zero_square(e.1, UNIT as int);
        lemma_rotation_scales_products(v.pair(), v.pair(), r);
        let n = v.norm2();
        let rr = dot(r.pair(), r.pair());
        assert(dot(e, e) == n * rr);
        assert(n >= 0) by (nonlinear_arith)
            requires n == v.x * v.x + v.y * v.y;
        assert(n * rr <= n * (UNIT * UNIT)) by (nonlinear_arith)
            requires n >= 0, rr <= UNIT * UNIT;
        assert(qx * qx + qy * qy <= n) by (nonlinear_arith)
            requires
                qx * qx * (UNIT * UNIT) <= e.0 * e.0,
                qy * qy * (UNIT * UNIT) <= e.1 * e.1,
                e.0 * e.0 + e.1 * e.1 <= n * (UNIT * UNIT);
        lemma_coord_bound(qx as int, qy as int);
    }
    Vec2i { x: qx as i64, y: qy as i64 }
}

/// `n / UNIT` rounded toward zero.
fn div_toward_zero_i128(n: i128) -> (q: i128)
    requires
        -0x1_0000_0000_0000_0000_0000 < n < 0x1_0000_0000_0000_0000_0000,
    ensures
        q == div_toward_zero(n as int, UNIT as int),
{
    div_toward_zero_by(n, UNIT as i128)
}

/// `n / d` rounded toward zero.
pub(crate) fn div_toward_zero_by(n: i128, d: i128) -> (q: i128)
    requires
        -0x1_0000_0000_0000_0000_0000_0000 < n < 0x1_0000_0000_0000_0000_0000_0000,
        d > 0,
    ensures
        q == div_toward_zero(n as int, d as int),
        -0x1_0000_0000_0000_0000_0000_0000 < q < 0x1_0000_0000_0000_0000_0000_0000,
{
    proof {
        if n >= 0 {
            vstd::arithmetic::div_mod::lemma_div_nonincreasing(n as int, d as int);
            vstd::arithmetic::div_mod::lemma_div_pos_is_pos(n as int, d as int);
        } else {
            vstd::arithmetic::div_mod::lemma_div_nonincreasing(-n as int, d as int);
            vstd::arithmetic::div_mod::lemma_div_pos_is_pos(-n as int, d as int);
        }
    }
    let e = d as u128;
    if n >= 0 {
        ((n as u128) / e) as i128
    } else {
        -((((-n) as u128) / e) as i128)
    }
}

/// Where the camera stands and looks: `facing` is the view direction and
/// `plane` the half-width of the view at unit distance.
#[derive(Clone, Copy, Debug, PartialEq, Eq, Structural)]
pub struct CameraState {
    pub pos: Vec2i,
    pub facing: Vec2i,
    pub plane: Vec2i,
}

impl CameraState {
    pub open spec fn wf(self) -> bool {
        &&& -POS_LIMIT <= self.pos.x <= POS_LIMIT
        &&& -POS_LIMIT <= self.pos.y <= POS_LIMIT
        &&& self.facing.wf()
        &&& self.plane.wf()
    }
}

/// Turns `facing` and `plane` together by `r`; the position stays.
pub fn rotate_camera(cam: CameraState, r: Rotation) -> (out: CameraState)
    requires
        cam.wf(),
        r.wf(),
    ensures
        out.pos == cam.pos,
        out.facing.pair() == rotated(cam.facing, r),
        out.plane.pair() == rotated(cam.plane, r),
        out.wf(),
{
    CameraState { pos: cam.pos, facing: rotate_vec(cam.facing, r), plane: rotate_vec(cam.plane, r) }
}

} // verus!
