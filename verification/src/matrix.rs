//! Rotation matrices built from fixed-point sines and cosines.
//!
//! A rotation about the three axes is composed in the fixed order
//! `Rz * Ry * Rx`: the rotation about x is applied to a point first, then y,
//! then z.  [`Mat3`] holds fixed-point entries; [`M3`] is the exact integer
//! shadow used by the contracts.  The trigonometric values themselves come
//! from the caller as [`Trig`] pairs, since the library computes with
//! integers only.

use vstd::prelude::*;
use crate::fixed::SCALE;
use crate::fixed::lemma_mul_bound;
use crate::fixed::lemma_qtz_bound;
use crate::fixed::lemma_qtz_exact;
use crate::fixed::lemma_qtz_err;
use crate::fixed::qtz;
use crate::fixed::div_tz;
use crate::vec3::V3;
use crate::vec3::Vec3;
use crate::vec3::in_range;
use crate::vec3::norm2_s;
use crate::vec3::scale3_s;
use crate::vec3::sub_s;
use crate::vec3::v3;

verus! {

/// A fixed-point sine/cosine pair for one rotation angle.
#[derive(Clone, Copy, PartialEq, Eq, Structural, Debug)]
pub struct Trig {
    pub sin: i64,
    pub cos: i64,
}

/// Both trigonometric components have magnitude at most one world unit.
pub open spec fn trig_ok(t: Trig) -> bool {
    &&& -SCALE <= t.sin <= SCALE
    &&& -SCALE <= t.cos <= SCALE
}

/// The pair for a zero angle: sine zero, cosine one.
pub open spec fn trig_id() -> Trig {
    Trig { sin: 0, cos: SCALE }
}

impl Trig {
    /// The pair for a zero angle.
    pub fn identity() -> (t: Trig)
        ensures
            t == trig_id(),
            trig_ok(t),
    {
        Trig { sin: 0, cos: SCALE }
    }
}

/// A 3x3 matrix of fixed-point entries, row major.
#[derive(Clone, Copy, PartialEq, Eq, Structural, Debug)]
pub struct Mat3 {
    pub m00: i64,
    pub m01: i64,
    pub m02: i64,
    pub m10: i64,
    pub m11: i64,
    pub m12: i64,
    pub m20: i64,
    pub m21: i64,
    pub m22: i64,
}

/// The mathematical value of a matrix: nine unbounded integers, row major.
pub struct M3 {
    pub e00: int,
    pub e01: int,
    pub e02: int,
    pub e10: int,
    pub e11: int,
    pub e12: int,
    pub e20: int,
    pub e21: int,
    pub e22: int,
}

/// The mathematical value of an executable matrix.
pub open spec fn m3(m: Mat3) -> M3 {
    M3 {
        e00: m.m00 as int,
        e01: m.m01 as int,
        e02: m.m02 as int,
        e10: m.m10 as int,
        e11: m.m11 as int,
        e12: m.m12 as int,
        e20: m.m20 as int,
        e21: m.m21 as int,
        e22: m.m22 as int,
    }
}

/// Every entry of `m` has magnitude at most `b`.
pub open spec fn mat_in_range(m: Mat3, b: int) -> bool {
    &&& -b <= m.m00 <= b && -b <= m.m01 <= b && -b <= m.m02 <= b
    &&& -b <= m.m10 <= b && -b <= m.m11 <= b && -b <= m.m12 <= b
    &&& -b <= m.m20 <= b && -b <= m.m21 <= b && -b <= m.m22 <= b
}

/// Exact matrix-vector product over the raw integer entries; the result
/// carries one extra factor of the matrix scale.
pub open spec fn apply_es(m: M3, v: V3) -> V3 {
    V3 {
        x: m.e00 * v.x + m.e01 * v.y + m.e02 * v.z,
        y: m.e10 * v.x + m.e11 * v.y + m.e12 * v.z,
        z: m.e20 * v.x + m.e21 * v.y + m.e22 * v.z,
    }
}

/// Fixed-point matrix-vector product: the exact product with each component
/// divided by `SCALE`, rounded toward zero.
pub open spec fn apply_rs(m: M3, v: V3) -> V3 {
    V3 {
        x: qtz(apply_es(m, v).x, SCALE as int),
        y: qtz(apply_es(m, v).y, SCALE as int),
        z: qtz(apply_es(m, v).z, SCALE as int),
    }
}

/// Exact matrix product over the raw integer entries; the result carries
/// the product of the two scales.
pub open spec fn mul_es(a: M3, b: M3) -> M3 {
    M3 {
        e00: a.e00 * b.e00 + a.e01 * b.e10 + a.e02 * b.e20,
        e01: a.e00 * b.e01 + a.e01 * b.e11 + a.e02 * b.e21,
        e02: a.e00 * b.e02 + a.e01 * b.e12 + a.e02 * b.e22,
        e10: a.e10 * b.e00 + a.e11 * b.e10 + a.e12 * b.e20,
        e11: a.e10 * b.e01 + a.e11 * b.e11 + a.e12 * b.e21,
        e12: a.e10 * b.e02 + a.e11 * b.e12 + a.e12 * b.e22,
        e20: a.e20 * b.e00 + a.e21 * b.e10 + a.e22 * b.e20,
        e21: a.e20 * b.e01 + a.e21 * b.e11 + a.e22 * b.e21,
        e22: a.e20 * b.e02 + a.e21 * b.e12 + a.e22 * b.e22,
    }
}

/// The exact rotation about the x axis, at scale `SCALE`.
pub open spec fn rot_x_es(t: Trig) -> M3 {
    M3 {
        e00: SCALE as int,
        e01: 0,
        e02: 0,
        e10: 0,
        e11: t.cos as int,
        e12: -(t.sin as int),
        e20: 0,
        e21: t.sin as int,
        e22: t.cos as int,
    }
}

/// The exact rotation about the y axis, at scale `SCALE`.
pub open spec fn rot_y_es(t: Trig) -> M3 {
    M3 {
        e00: t.cos as int,
        e01: 0,
        e02: t.sin as int,
        e10: 0,
        e11: SCALE as int,
        e12: 0,
        e20: -(t.sin as int),
        e21: 0,
        e22: t.cos as int,
    }
}

/// The exact rotation about the z axis, at scale `SCALE`.
pub open spec fn rot_z_es(t: Trig) -> M3 {
    M3 {
        e00: t.cos as int,
        e01: -(t.sin as int),
        e02: 0,
        e10: t.sin as int,
        e11: t.cos as int,
        e12: 0,
        e20: 0,
        e21: 0,
        e22: SCALE as int,
    }
}

/// The closed-form numerators of the combined Euler rotation `Rz * Ry * Rx`,
/// at scale `SCALE^3`.
pub open spec fn euler_num_es(tx: Trig, ty: Trig, tz: Trig) -> M3 {
    let sx = tx.sin as int;
    let cx = tx.cos as int;
    let sy = ty.sin as int;
    let cy = ty.cos as int;
    let sz = tz.sin as int;
    let cz = tz.cos as int;
    let s = SCALE as int;
    M3 {
        e00: cz * cy * s,
        e01: cz * sy * sx - sz * cx * s,
        e02: cz * sy * cx + sz * sx * s,
        e10: sz * cy * s,
        e11: sz * sy * sx + cz * cx * s,
        e12: sz * sy * cx - cz * sx * s,
        e20: -(sy * s * s),
        e21: cy * sx * s,
        e22: cy * cx * s,
    }
}

/// The fixed-point combined Euler rotation: each closed-form numerator
/// divided by `SCALE^2`, rounded toward zero.
pub open spec fn euler_s(tx: Trig, ty: Trig, tz: Trig) -> M3 {
    let n = euler_num_es(tx, ty, tz);
    let s2 = (SCALE as int) * (SCALE as int);
    M3 {
        e00: qtz(n.e00, s2),
        e01: qtz(n.e01, s2),
        e02: qtz(n.e02, s2),
        e10: qtz(n.e10, s2),
        e11: qtz(n.e11, s2),
        e12: qtz(n.e12, s2),
        e20: qtz(n.e20, s2),
        e21: qtz(n.e21, s2),
        e22: qtz(n.e22, s2),
    }
}

/// The columns of `m` are pairwise orthogonal and each has squared norm
/// `SCALE^2`: `m` is an exact rigid rotation.
pub open spec fn cols_orthonormal(m: M3) -> bool {
    let s2 = (SCALE as int) * (SCALE as int);
    &&& m.e00 * m.e00 + m.e10 * m.e10 + m.e20 * m.e20 == s2
    &&& m.e01 * m.e01 + m.e11 * m.e11 + m.e21 * m.e21 == s2
    &&& m.e02 * m.e02 + m.e12 * m.e12 + m.e22 * m.e22 == s2
    &&& m.e00 * m.e01 + m.e10 * m.e11 + m.e20 * m.e21 == 0
    &&& m.e00 * m.e02 + m.e10 * m.e12 + m.e20 * m.e22 == 0
    &&& m.e01 * m.e02 + m.e11 * m.e12 + m.e21 * m.e22 == 0
}


/// Distributivity of a three-term sum over a right factor.
proof fn lemma_dist3r(u1: int, u2: int, u3: int, k: int)
    by (nonlinear_arith)
    ensures
        (u1 + u2 + u3) * k == u1 * k + u2 * k + u3 * k,
{
}

/// Distributivity of a left factor over a three-term sum.
proof fn lemma_dist3l(k: int, u1: int, u2: int, u3: int)
    by (nonlinear_arith)
    ensures
        k * (u1 + u2 + u3) == k * u1 + k * u2 + k * u3,
{
}

/// Associativity of multiplication.
proof fn lemma_mul_assoc3(a: int, b: int, c: int)
    by (nonlinear_arith)
    ensures
        (a * b) * c == a * (b * c),
{
}

/// The square of a three-term sum, expanded.
proof fn lemma_sq_expand(t1: int, t2: int, t3: int)
    by (nonlinear_arith)
    ensures
        (t1 + t2 + t3) * (t1 + t2 + t3) == t1 * t1 + t2 * t2 + t3 * t3 + 2 * (t1 * t2) + 2 * (t1
            * t3) + 2 * (t2 * t3),
{
}

/// Regrouping a product of two products.
proof fn lemma_mul_swap(a: int, b: int, c: int, d: int)
    by (nonlinear_arith)
    ensures
        (a * b) * (c * d) == (a * c) * (b * d),
{
}

/// Composition order of the Euler rotation: the closed-form combined matrix
/// is exactly the product `Rz * Ry * Rx`, so a point is rotated about x
/// first, then y, then z.
pub proof fn lemma_euler_is_composition(tx: Trig, ty: Trig, tz: Trig)
    ensures
        euler_num_es(tx, ty, tz) == mul_es(rot_z_es(tz), mul_es(rot_y_es(ty), rot_x_es(tx))),
{
    let sx = tx.sin as int;
    let cx = tx.cos as int;
    let sy = ty.sin as int;
    let cy = ty.cos as int;
    let sz = tz.sin as int;
    let cz = tz.cos as int;
    let s = SCALE as int;
    let yx = mul_es(rot_y_es(ty), rot_x_es(tx));
    assert(yx.e00 == cy * (SCALE as int) + 0 * 0 + sy * 0);
    assert(cy * (SCALE as int) + 0 * 0 + sy * 0 == cy * s) by (nonlinear_arith)
        requires
            s == SCALE as int,
    ;
    assert(yx.e01 == sy * sx);
    assert(yx.e02 == sy * cx);
    assert(yx.e10 == 0);
    assert(yx.e11 == s * cx);
    assert(yx.e12 == -(s * sx));
    assert(yx.e20 == (-(ty.sin as int)) * (SCALE as int) + 0 * 0 + cy * 0);
    assert((-(ty.sin as int)) * (SCALE as int) + 0 * 0 + cy * 0 == -(sy * s)) by (nonlinear_arith)
        requires
            s == SCALE as int,
            sy == ty.sin as int,
    ;
    assert(yx.e21 == cy * sx);
    assert(yx.e22 == cy * cx);
    let zyx = mul_es(rot_z_es(tz), yx);
    assert(zyx.e00 == cz * (cy * s));
    assert(cz * (cy * s) == cz * cy * s) by (nonlinear_arith);
    assert(zyx.e01 == cz * (sy * sx) + (-sz) * (s * cx));
    assert(cz * (sy * sx) + (-sz) * (s * cx) == cz * sy * sx - sz * cx * s) by (nonlinear_arith);
    assert(zyx.e02 == cz * (sy * cx) + (-sz) * (-(s * sx)));
    assert(cz * (sy * cx) + (-sz) * (-(s * sx)) == cz * sy * cx + sz * sx * s)
        by (nonlinear_arith);
    assert(zyx.e10 == sz * (cy * s));
    assert(sz * (cy * s) == sz * cy * s) by (nonlinear_arith);
    assert(zyx.e11 == sz * (sy * sx) + cz * (s * cx));
    assert(sz * (sy * sx) + cz * (s * cx) == sz * sy * sx + cz * cx * s) by (nonlinear_arith);
    assert(zyx.e12 == sz * (sy * cx) + cz * (-(s * sx)));
    assert(sz * (sy * cx) + cz * (-(s * sx)) == sz * sy * cx - cz * sx * s) by (nonlinear_arith);
    assert(zyx.e20 == s * (-(sy * s)));
    assert(s * (-(sy * s)) == -(sy * s * s)) by (nonlinear_arith);
    assert(zyx.e21 == s * (cy * sx));
    assert(s * (cy * sx) == cy * sx * s) by (nonlinear_arith);
    assert(zyx.e22 == s * (cy * cx));
    assert(s * (cy * cx) == cy * cx * s) by (nonlinear_arith);
}

/// Applying two matrices in sequence is applying their exact product: the
/// closure law that lets three single-axis rotations stand in for one
/// combined call.
pub proof fn lemma_apply_assoc(a: M3, b: M3, v: V3)
    ensures
        apply_es(mul_es(a, b), v) == apply_es(a, apply_es(b, v)),
{
    lemma_dist3r(a.e00 * b.e00, a.e01 * b.e10, a.e02 * b.e20, v.x);
    lemma_dist3r(a.e00 * b.e01, a.e01 * b.e11, a.e02 * b.e21, v.y);
    lemma_dist3r(a.e00 * b.e02, a.e01 * b.e12, a.e02 * b.e22, v.z);
    lemma_dist3r(a.e10 * b.e00, a.e11 * b.e10, a.e12 * b.e20, v.x);
    lemma_dist3r(a.e10 * b.e01, a.e11 * b.e11, a.e12 * b.e21, v.y);
    lemma_dist3r(a.e10 * b.e02, a.e11 * b.e12, a.e12 * b.e22, v.z);
    lemma_dist3r(a.e20 * b.e00, a.e21 * b.e10, a.e22 * b.e20, v.x);
    lemma_dist3r(a.e20 * b.e01, a.e21 * b.e11, a.e22 * b.e21, v.y);
    lemma_dist3r(a.e20 * b.e02, a.e21 * b.e12, a.e22 * b.e22, v.z);
    lemma_mul_assoc3(a.e00, b.e00, v.x);
    lemma_mul_assoc3(a.e01, b.e10, v.x);
    lemma_mul_assoc3(a.e02, b.e20, v.x);
    lemma_mul_assoc3(a.e00, b.e01, v.y);
    lemma_mul_assoc3(a.e01, b.e11, v.y);
    lemma_mul_assoc3(a.e02, b.e21, v.y);
    lemma_mul_assoc3(a.e00, b.e02, v.z);
    lemma_mul_assoc3(a.e01, b.e12, v.z);
    lemma_mul_assoc3(a.e02, b.e22, v.z);
    lemma_mul_assoc3(a.e10, b.e00, v.x);
    lemma_mul_assoc3(a.e11, b.e10, v.x);
    lemma_mul_assoc3(a.e12, b.e20, v.x);
    lemma_mul_assoc3(a.e10, b.e01, v.y);
    lemma_mul_assoc3(a.e11, b.e11, v.y);
    lemma_mul_assoc3(a.e12, b.e21, v.y);
    lemma_mul_assoc3(a.e10, b.e02, v.z);
    lemma_mul_assoc3(a.e11, b.e12, v.z);
    lemma_mul_assoc3(a.e12, b.e22, v.z);
    lemma_mul_assoc3(a.e20, b.e00, v.x);
    lemma_mul_assoc3(a.e21, b.e10, v.x);
    lemma_mul_assoc3(a.e22, b.e20, v.x);
    lemma_mul_assoc3(a.e20, b.e01, v.y);
    lemma_mul_assoc3(a.e21, b.e11, v.y);
    lemma_mul_assoc3(a.e22, b.e21, v.y);
    lemma_mul_assoc3(a.e20, b.e02, v.z);
    lemma_mul_assoc3(a.e21, b.e12, v.z);
    lemma_mul_assoc3(a.e22, b.e22, v.z);
    lemma_dist3l(a.e00, b.e00 * v.x, b.e01 * v.y, b.e02 * v.z);
    lemma_dist3l(a.e01, b.e10 * v.x, b.e11 * v.y, b.e12 * v.z);
    lemma_dist3l(a.e02, b.e20 * v.x, b.e21 * v.y, b.e22 * v.z);
    lemma_dist3l(a.e10, b.e00 * v.x, b.e01 * v.y, b.e02 * v.z);
    lemma_dist3l(a.e11, b.e10 * v.x, b.e11 * v.y, b.e12 * v.z);
    lemma_dist3l(a.e12, b.e20 * v.x, b.e21 * v.y, b.e22 * v.z);
    lemma_dist3l(a.e20, b.e00 * v.x, b.e01 * v.y, b.e02 * v.z);
    lemma_dist3l(a.e21, b.e10 * v.x, b.e11 * v.y, b.e12 * v.z);
    lemma_dist3l(a.e22, b.e20 * v.x, b.e21 * v.y, b.e22 * v.z);
}

/// Rotating about x, then y, then z in three separate exact applications
/// acts on a point exactly as the single combined Euler matrix does: the
/// two call patterns differ only by the documented composition order.
pub proof fn lemma_three_axis_sequence(tx: Trig, ty: Trig, tz: Trig, v: V3)
    ensures
        apply_es(rot_z_es(tz), apply_es(rot_y_es(ty), apply_es(rot_x_es(tx), v))) == apply_es(
            euler_num_es(tx, ty, tz),
            v,
        ),
{
    lemma_euler_is_composition(tx, ty, tz);
    lemma_apply_assoc(rot_y_es(ty), rot_x_es(tx), v);
    lemma_apply_assoc(rot_z_es(tz), mul_es(rot_y_es(ty), rot_x_es(tx)), v);
}

/// A rotation preserves norms: applying a matrix with exactly orthonormal
/// columns multiplies the exact squared norm by exactly `SCALE^2`.
pub proof fn lemma_orthonormal_preserves_norm2(m: M3, v: V3)
    requires
        cols_orthonormal(m),
    ensures
        norm2_s(apply_es(m, v)) == (SCALE as int) * (SCALE as int) * norm2_s(v),
{
    let s2 = (SCALE as int) * (SCALE as int);
    let xx = v.x * v.x;
    let yy = v.y * v.y;
    let zz = v.z * v.z;
    let xy = v.x * v.y;
    let xz = v.x * v.z;
    let yz = v.y * v.z;
    lemma_sq_expand(m.e00 * v.x, m.e01 * v.y, m.e02 * v.z);
    lemma_sq_expand(m.e10 * v.x, m.e11 * v.y, m.e12 * v.z);
    lemma_sq_expand(m.e20 * v.x, m.e21 * v.y, m.e22 * v.z);
    lemma_mul_swap(m.e00, v.x, m.e00, v.x);
    lemma_mul_swap(m.e01, v.y, m.e01, v.y);
    lemma_mul_swap(m.e02, v.z, m.e02, v.z);
    lemma_mul_swap(m.e00, v.x, m.e01, v.y);
    lemma_mul_swap(m.e00, v.x, m.e02, v.z);
    lemma_mul_swap(m.e01, v.y, m.e02, v.z);
    lemma_mul_swap(m.e10, v.x, m.e10, v.x);
    lemma_mul_swap(m.e11, v.y, m.e11, v.y);
    lemma_mul_swap(m.e12, v.z, m.e12, v.z);
    lemma_mul_swap(m.e10, v.x, m.e11, v.y);
    lemma_mul_swap(m.e10, v.x, m.e12, v.z);
    lemma_mul_swap(m.e11, v.y, m.e12, v.z);
    lemma_mul_swap(m.e20, v.x, m.e20, v.x);
    lemma_mul_swap(m.e21, v.y, m.e21, v.y);
    lemma_mul_swap(m.e22, v.z, m.e22, v.z);
    lemma_mul_swap(m.e20, v.x, m.e21, v.y);
    lemma_mul_swap(m.e20, v.x, m.e22, v.z);
    lemma_mul_swap(m.e21, v.y, m.e22, v.z);
    assert((m.e00 * m.e00) * xx + (m.e10 * m.e10) * xx + (m.e20 * m.e20) * xx == (m.e00 * m.e00
        + m.e10 * m.e10 + m.e20 * m.e20) * xx) by (nonlinear_arith);
    assert((m.e01 * m.e01) * yy + (m.e11 * m.e11) * yy + (m.e21 * m.e21) * yy == (m.e01 * m.e01
        + m.e11 * m.e11 + m.e21 * m.e21) * yy) by (nonlinear_arith);
    assert((m.e02 * m.e02) * zz + (m.e12 * m.e12) * zz + (m.e22 * m.e22) * zz == (m.e02 * m.e02
        + m.e12 * m.e12 + m.e22 * m.e22) * zz) by (nonlinear_arith);
    assert((m.e00 * m.e01) * xy + (m.e10 * m.e11) * xy + (m.e20 * m.e21) * xy == (m.e00 * m.e01
        + m.e10 * m.e11 + m.e20 * m.e21) * xy) by (nonlinear_arith);
    assert((m.e00 * m.e02) * xz + (m.e10 * m.e12) * xz + (m.e20 * m.e22) * xz == (m.e00 * m.e02
        + m.e10 * m.e12 + m.e20 * m.e22) * xz) by (nonlinear_arith);
    assert((m.e01 * m.e02) * yz + (m.e11 * m.e12) * yz + (m.e21 * m.e22) * yz == (m.e01 * m.e02
        + m.e11 * m.e12 + m.e21 * m.e22) * yz) by (nonlinear_arith);
    assert((m.e00 * m.e01 + m.e10 * m.e11 + m.e20 * m.e21) * xy == 0);
    assert((m.e00 * m.e02 + m.e10 * m.e12 + m.e20 * m.e22) * xz == 0);
    assert((m.e01 * m.e02 + m.e11 * m.e12 + m.e21 * m.e22) * yz == 0);
    assert(s2 * xx + s2 * yy + s2 * zz == s2 * (xx + yy + zz)) by (nonlinear_arith);
    assert(norm2_s(v) == xx + yy + zz);
}

/// Every entry of an exact matrix has magnitude at most `b`.
pub open spec fn m3_in_range(m: M3, b: int) -> bool {
    &&& -b <= m.e00 <= b && -b <= m.e01 <= b && -b <= m.e02 <= b
    &&& -b <= m.e10 <= b && -b <= m.e11 <= b && -b <= m.e12 <= b
    &&& -b <= m.e20 <= b && -b <= m.e21 <= b && -b <= m.e22 <= b
}

/// The exact product distributes over vector difference.
proof fn lemma_apply_sub(m: M3, u: V3, w: V3)
    ensures
        apply_es(m, sub_s(u, w)) == sub_s(apply_es(m, u), apply_es(m, w)),
{
    assert(m.e00 * (u.x - w.x) + m.e01 * (u.y - w.y) + m.e02 * (u.z - w.z) == (m.e00 * u.x + m.e01
        * u.y + m.e02 * u.z) - (m.e00 * w.x + m.e01 * w.y + m.e02 * w.z)) by (nonlinear_arith);
    assert(m.e10 * (u.x - w.x) + m.e11 * (u.y - w.y) + m.e12 * (u.z - w.z) == (m.e10 * u.x + m.e11
        * u.y + m.e12 * u.z) - (m.e10 * w.x + m.e11 * w.y + m.e12 * w.z)) by (nonlinear_arith);
    assert(m.e20 * (u.x - w.x) + m.e21 * (u.y - w.y) + m.e22 * (u.z - w.z) == (m.e20 * u.x + m.e21
        * u.y + m.e22 * u.z) - (m.e20 * w.x + m.e21 * w.y + m.e22 * w.z)) by (nonlinear_arith);
}

/// A factor slides across a product.
proof fn lemma_mul_left_comm(a: int, k: int, u: int)
    by (nonlinear_arith)
    ensures
        a * (k * u) == k * (a * u),
{
}

/// The exact product commutes with scalar stretching.
proof fn lemma_apply_scale(m: M3, k: int, u: V3)
    ensures
        apply_es(m, scale3_s(k, u)) == scale3_s(k, apply_es(m, u)),
{
    lemma_mul_left_comm(m.e00, k, u.x);
    lemma_mul_left_comm(m.e01, k, u.y);
    lemma_mul_left_comm(m.e02, k, u.z);
    lemma_mul_left_comm(m.e10, k, u.x);
    lemma_mul_left_comm(m.e11, k, u.y);
    lemma_mul_left_comm(m.e12, k, u.z);
    lemma_mul_left_comm(m.e20, k, u.x);
    lemma_mul_left_comm(m.e21, k, u.y);
    lemma_mul_left_comm(m.e22, k, u.z);
    lemma_dist3l(k, m.e00 * u.x, m.e01 * u.y, m.e02 * u.z);
    lemma_dist3l(k, m.e10 * u.x, m.e11 * u.y, m.e12 * u.z);
    lemma_dist3l(k, m.e20 * u.x, m.e21 * u.y, m.e22 * u.z);
}

/// The exact product of bounded inputs is componentwise bounded.
proof fn lemma_apply_es_bound(m: M3, u: V3, bm: int, bu: int)
    requires
        m3_in_range(m, bm),
        -bu <= u.x <= bu,
        -bu <= u.y <= bu,
        -bu <= u.z <= bu,
        0 <= bm,
        0 <= bu,
    ensures
        -(3 * (bm * bu)) <= apply_es(m, u).x <= 3 * (bm * bu),
        -(3 * (bm * bu)) <= apply_es(m, u).y <= 3 * (bm * bu),
        -(3 * (bm * bu)) <= apply_es(m, u).z <= 3 * (bm * bu),
{
    lemma_mul_bound(m.e00, u.x, bm, bu);
    lemma_mul_bound(m.e01, u.y, bm, bu);
    lemma_mul_bound(m.e02, u.z, bm, bu);
    lemma_mul_bound(m.e10, u.x, bm, bu);
    lemma_mul_bound(m.e11, u.y, bm, bu);
    lemma_mul_bound(m.e12, u.z, bm, bu);
    lemma_mul_bound(m.e20, u.x, bm, bu);
    lemma_mul_bound(m.e21, u.y, bm, bu);
    lemma_mul_bound(m.e22, u.z, bm, bu);
}

/// One rounded application is within one scale unit of the exact product,
/// componentwise, once rescaled.
proof fn lemma_apply_rs_err(m: M3, v: V3)
    ensures
        ({
            let e = apply_es(m, v);
            let r = apply_rs(m, v);
            &&& -SCALE < e.x - SCALE * r.x < SCALE
            &&& -SCALE < e.y - SCALE * r.y < SCALE
            &&& -SCALE < e.z - SCALE * r.z < SCALE
        }),
{
    lemma_qtz_err(apply_es(m, v).x, SCALE as int);
    lemma_qtz_err(apply_es(m, v).y, SCALE as int);
    lemma_qtz_err(apply_es(m, v).z, SCALE as int);
}

/// The three rounded single-axis applications land within thirteen scale
/// units, at the combined scale, of the exact combined rotation.
proof fn lemma_seq_roundoff(tx: Trig, ty: Trig, tz: Trig, v: V3)
    requires
        trig_ok(tx),
        trig_ok(ty),
        trig_ok(tz),
    ensures
        ({
            let s = SCALE as int;
            let e = apply_es(euler_num_es(tx, ty, tz), v);
            let r3 = apply_rs(rot_z_es(tz), apply_rs(rot_y_es(ty), apply_rs(rot_x_es(tx), v)));
            &&& -(13 * ((s * s) * s)) < ((s * s) * s) * r3.x - e.x < 13 * ((s * s) * s)
            &&& -(13 * ((s * s) * s)) < ((s * s) * s) * r3.y - e.y < 13 * ((s * s) * s)
            &&& -(13 * ((s * s) * s)) < ((s * s) * s) * r3.z - e.z < 13 * ((s * s) * s)
        }),
{
    let s = SCALE as int;
    let rx = rot_x_es(tx);
    let ry = rot_y_es(ty);
    let rz = rot_z_es(tz);
    let r1 = apply_rs(rx, v);
    let r2 = apply_rs(ry, r1);
    let r3 = apply_rs(rz, r2);
    let a1 = apply_es(rx, v);
    let a2 = apply_es(ry, r1);
    let a3 = apply_es(rz, r2);
    let rho1 = sub_s(a1, scale3_s(s, r1));
    let rho2 = sub_s(a2, scale3_s(s, r2));
    let rho3 = sub_s(a3, scale3_s(s, r3));
    lemma_apply_rs_err(rx, v);
    lemma_apply_rs_err(ry, r1);
    lemma_apply_rs_err(rz, r2);
    assert(-s < rho1.x < s && -s < rho1.y < s && -s < rho1.z < s);
    assert(-s < rho2.x < s && -s < rho2.y < s && -s < rho2.z < s);
    assert(-s < rho3.x < s && -s < rho3.y < s && -s < rho3.z < s);
    // lift the second stage to scale s^2
    lemma_apply_scale(ry, s, r1);
    lemma_apply_sub(ry, a1, rho1);
    assert(scale3_s(s, r1) == sub_s(a1, rho1));
    let t1 = apply_es(ry, rho1);
    assert(scale3_s(s, a2) == sub_s(apply_es(ry, a1), t1));
    // s^2 * r2 == s * a2 - s * rho2
    let l2 = sub_s(sub_s(apply_es(ry, a1), t1), scale3_s(s, rho2));
    assert(scale3_s(s * s, r2) == l2) by {
        assert((s * s) * r2.x == s * a2.x - s * rho2.x) by (nonlinear_arith)
            requires
                s * r2.x == a2.x - rho2.x,
        ;
        assert((s * s) * r2.y == s * a2.y - s * rho2.y) by (nonlinear_arith)
            requires
                s * r2.y == a2.y - rho2.y,
        ;
        assert((s * s) * r2.z == s * a2.z - s * rho2.z) by (nonlinear_arith)
            requires
                s * r2.z == a2.z - rho2.z,
        ;
        assert(scale3_s(s, a2).x == s * a2.x && scale3_s(s, a2).y == s * a2.y && scale3_s(
            s,
            a2,
        ).z == s * a2.z);
    };
    // lift the third stage to scale s^3
    lemma_apply_scale(rz, s * s, r2);
    lemma_apply_sub(rz, sub_s(apply_es(ry, a1), t1), scale3_s(s, rho2));
    lemma_apply_sub(rz, apply_es(ry, a1), t1);
    let t2 = apply_es(rz, scale3_s(s, rho2));
    let t1z = apply_es(rz, t1);
    let big = apply_es(rz, apply_es(ry, a1));
    assert(scale3_s(s * s, a3) == sub_s(sub_s(big, t1z), t2));
    let l3 = sub_s(sub_s(sub_s(big, t1z), t2), scale3_s(s * s, rho3));
    assert(scale3_s((s * s) * s, r3) == l3) by {
        assert(((s * s) * s) * r3.x == (s * s) * a3.x - (s * s) * rho3.x) by (nonlinear_arith)
            requires
                s * r3.x == a3.x - rho3.x,
        ;
        assert(((s * s) * s) * r3.y == (s * s) * a3.y - (s * s) * rho3.y) by (nonlinear_arith)
            requires
                s * r3.y == a3.y - rho3.y,
        ;
        assert(((s * s) * s) * r3.z == (s * s) * a3.z - (s * s) * rho3.z) by (nonlinear_arith)
            requires
                s * r3.z == a3.z - rho3.z,
        ;
    };
    // the exact path is the combined matrix
    lemma_three_axis_sequence(tx, ty, tz, v);
    assert(big == apply_es(euler_num_es(tx, ty, tz), v));
    // bound the three error terms
    assert(m3_in_range(ry, s) && m3_in_range(rz, s));
    lemma_apply_es_bound(ry, rho1, s, s);
    assert(-(3 * (s * s)) <= t1.x <= 3 * (s * s) && -(3 * (s * s)) <= t1.y <= 3 * (s * s) && -(3
        * (s * s)) <= t1.z <= 3 * (s * s));
    lemma_apply_es_bound(rz, t1, s, 3 * (s * s));
    assert(-(3 * (s * (3 * (s * s)))) <= t1z.x <= 3 * (s * (3 * (s * s))));
    assert(3 * (s * (3 * (s * s))) == 9 * ((s * s) * s)) by (nonlinear_arith);
    assert(-(s * s) <= scale3_s(s, rho2).x <= s * s && -(s * s) <= scale3_s(s, rho2).y <= s * s
        && -(s * s) <= scale3_s(s, rho2).z <= s * s) by {
        assert(-(s * s) <= s * rho2.x <= s * s) by (nonlinear_arith)
            requires
                -s < rho2.x < s,
                s >= 1,
        ;
        assert(-(s * s) <= s * rho2.y <= s * s) by (nonlinear_arith)
            requires
                -s < rho2.y < s,
                s >= 1,
        ;
        assert(-(s * s) <= s * rho2.z <= s * s) by (nonlinear_arith)
            requires
                -s < rho2.z < s,
                s >= 1,
        ;
    };
    lemma_apply_es_bound(rz, scale3_s(s, rho2), s, s * s);
    assert(3 * (s * (s * s)) == 3 * ((s * s) * s)) by (nonlinear_arith);
    assert(-((s * s) * s) < scale3_s(s * s, rho3).x < (s * s) * s && -((s * s) * s) < scale3_s(
        s * s,
        rho3,
    ).y < (s * s) * s && -((s * s) * s) < scale3_s(s * s, rho3).z < (s * s) * s) by {
        assert(-((s * s) * s) < (s * s) * rho3.x < (s * s) * s) by (nonlinear_arith)
            requires
                -s < rho3.x < s,
                s >= 1,
        ;
        assert(-((s * s) * s) < (s * s) * rho3.y < (s * s) * s) by (nonlinear_arith)
            requires
                -s < rho3.y < s,
                s >= 1,
        ;
        assert(-((s * s) * s) < (s * s) * rho3.z < (s * s) * s) by (nonlinear_arith)
            requires
                -s < rho3.z < s,
                s >= 1,
        ;
    };
}

/// The rounded combined application lands within one scale unit plus three
/// entry-rounding units per coordinate-magnitude unit of the exact
/// combined rotation, at the combined scale.
proof fn lemma_comb_roundoff(tx: Trig, ty: Trig, tz: Trig, v: V3, b: int)
    requires
        -b <= v.x <= b,
        -b <= v.y <= b,
        -b <= v.z <= b,
        0 <= b,
    ensures
        ({
            let s = SCALE as int;
            let e = apply_es(euler_num_es(tx, ty, tz), v);
            let c = apply_rs(euler_s(tx, ty, tz), v);
            &&& -((s * s) * s + 3 * ((s * s) * b)) < ((s * s) * s) * c.x - e.x < (s * s) * s + 3
                * ((s * s) * b)
            &&& -((s * s) * s + 3 * ((s * s) * b)) < ((s * s) * s) * c.y - e.y < (s * s) * s + 3
                * ((s * s) * b)
            &&& -((s * s) * s + 3 * ((s * s) * b)) < ((s * s) * s) * c.z - e.z < (s * s) * s + 3
                * ((s * s) * b)
        }),
{
    let s = SCALE as int;
    let nm = euler_num_es(tx, ty, tz);
    let m = euler_s(tx, ty, tz);
    assert(s * s > 0);
    lemma_qtz_err(nm.e00, s * s);
    lemma_qtz_err(nm.e01, s * s);
    lemma_qtz_err(nm.e02, s * s);
    lemma_qtz_err(nm.e10, s * s);
    lemma_qtz_err(nm.e11, s * s);
    lemma_qtz_err(nm.e12, s * s);
    lemma_qtz_err(nm.e20, s * s);
    lemma_qtz_err(nm.e21, s * s);
    lemma_qtz_err(nm.e22, s * s);
    let am = apply_es(m, v);
    let c = apply_rs(m, v);
    lemma_apply_rs_err(m, v);
    let sig = M3 {
        e00: nm.e00 - (s * s) * m.e00,
        e01: nm.e01 - (s * s) * m.e01,
        e02: nm.e02 - (s * s) * m.e02,
        e10: nm.e10 - (s * s) * m.e10,
        e11: nm.e11 - (s * s) * m.e11,
        e12: nm.e12 - (s * s) * m.e12,
        e20: nm.e20 - (s * s) * m.e20,
        e21: nm.e21 - (s * s) * m.e21,
        e22: nm.e22 - (s * s) * m.e22,
    };
    assert(m3_in_range(sig, s * s));
    lemma_apply_es_bound(sig, v, s * s, b);
    assert(apply_es(nm, v).x == (s * s) * am.x + apply_es(sig, v).x) by (nonlinear_arith)
        requires
            sig.e00 == nm.e00 - (s * s) * m.e00,
            sig.e01 == nm.e01 - (s * s) * m.e01,
            sig.e02 == nm.e02 - (s * s) * m.e02,
            apply_es(nm, v).x == nm.e00 * v.x + nm.e01 * v.y + nm.e02 * v.z,
            am.x == m.e00 * v.x + m.e01 * v.y + m.e02 * v.z,
            apply_es(sig, v).x == sig.e00 * v.x + sig.e01 * v.y + sig.e02 * v.z,
    ;
    assert(apply_es(nm, v).y == (s * s) * am.y + apply_es(sig, v).y) by (nonlinear_arith)
        requires
            sig.e10 == nm.e10 - (s * s) * m.e10,
            sig.e11 == nm.e11 - (s * s) * m.e11,
            sig.e12 == nm.e12 - (s * s) * m.e12,
            apply_es(nm, v).y == nm.e10 * v.x + nm.e11 * v.y + nm.e12 * v.z,
            am.y == m.e10 * v.x + m.e11 * v.y + m.e12 * v.z,
            apply_es(sig, v).y == sig.e10 * v.x + sig.e11 * v.y + sig.e12 * v.z,
    ;
    assert(apply_es(nm, v).z == (s * s) * am.z + apply_es(sig, v).z) by (nonlinear_arith)
        requires
            sig.e20 == nm.e20 - (s * s) * m.e20,
            sig.e21 == nm.e21 - (s * s) * m.e21,
            sig.e22 == nm.e22 - (s * s) * m.e22,
            apply_es(nm, v).z == nm.e20 * v.x + nm.e21 * v.y + nm.e22 * v.z,
            am.z == m.e20 * v.x + m.e21 * v.y + m.e22 * v.z,
            apply_es(sig, v).z == sig.e20 * v.x + sig.e21 * v.y + sig.e22 * v.z,
    ;
    assert(((s * s) * s) * c.x == (s * s) * am.x - (s * s) * (am.x - s * c.x))
        by (nonlinear_arith);
    assert(((s * s) * s) * c.y == (s * s) * am.y - (s * s) * (am.y - s * c.y))
        by (nonlinear_arith);
    assert(((s * s) * s) * c.z == (s * s) * am.z - (s * s) * (am.z - s * c.z))
        by (nonlinear_arith);
    assert(-((s * s) * s) < (s * s) * (am.x - s * c.x) < (s * s) * s) by (nonlinear_arith)
        requires
            -s < am.x - s * c.x < s,
            s >= 1,
    ;
    assert(-((s * s) * s) < (s * s) * (am.y - s * c.y) < (s * s) * s) by (nonlinear_arith)
        requires
            -s < am.y - s * c.y < s,
            s >= 1,
    ;
    assert(-((s * s) * s) < (s * s) * (am.z - s * c.z) < (s * s) * s) by (nonlinear_arith)
        requires
            -s < am.z - s * c.z < s,
            s >= 1,
    ;
    assert(3 * ((s * s) * b) == 3 * ((s * s) * b));
}

/// Squared norm of a componentwise difference, expanded.
proof fn lemma_norm2_sub(a: V3, p: V3)
    ensures
        norm2_s(sub_s(a, p)) == norm2_s(a) - 2 * (a.x * p.x + a.y * p.y + a.z * p.z) + norm2_s(p),
{
    assert((a.x - p.x) * (a.x - p.x) + (a.y - p.y) * (a.y - p.y) + (a.z - p.z) * (a.z - p.z) == (
    a.x * a.x + a.y * a.y + a.z * a.z) - 2 * (a.x * p.x + a.y * p.y + a.z * p.z) + (p.x * p.x + p.y
        * p.y + p.z * p.z)) by (nonlinear_arith);
}

/// An exactly orthonormal matrix has entries within one unit.
proof fn lemma_orthonormal_entries(m: M3)
    requires
        cols_orthonormal(m),
    ensures
        m3_in_range(m, SCALE as int),
{
    let s2 = (SCALE as int) * (SCALE as int);
    assert(-SCALE <= m.e00 <= SCALE && -SCALE <= m.e10 <= SCALE && -SCALE <= m.e20 <= SCALE)
        by (nonlinear_arith)
        requires
            m.e00 * m.e00 + m.e10 * m.e10 + m.e20 * m.e20 == s2,
            s2 == (SCALE as int) * (SCALE as int),
    ;
    assert(-SCALE <= m.e01 <= SCALE && -SCALE <= m.e11 <= SCALE && -SCALE <= m.e21 <= SCALE)
        by (nonlinear_arith)
        requires
            m.e01 * m.e01 + m.e11 * m.e11 + m.e21 * m.e21 == s2,
            s2 == (SCALE as int) * (SCALE as int),
    ;
    assert(-SCALE <= m.e02 <= SCALE && -SCALE <= m.e12 <= SCALE && -SCALE <= m.e22 <= SCALE)
        by (nonlinear_arith)
        requires
            m.e02 * m.e02 + m.e12 * m.e12 + m.e22 * m.e22 == s2,
            s2 == (SCALE as int) * (SCALE as int),
    ;
}

/// Rotation preserves norms through the executable rounding too: one
/// rounded application of an exactly orthonormal matrix changes a vector's
/// exact squared norm by less than `18 b + 4`, where `b` bounds the
/// coordinates; relative to a squared norm of order `b^2`, the drift
/// vanishes.
pub proof fn lemma_rotation_norm_roundoff(m: M3, v: V3, b: int)
    requires
        cols_orthonormal(m),
        -b <= v.x <= b,
        -b <= v.y <= b,
        -b <= v.z <= b,
        0 <= b,
    ensures
        -(18 * b + 4) < norm2_s(apply_rs(m, v)) - norm2_s(v) < 18 * b + 4,
{
    let s = SCALE as int;
    lemma_orthonormal_entries(m);
    let ae = apply_es(m, v);
    let r = apply_rs(m, v);
    lemma_apply_es_bound(m, v, s, b);
    lemma_apply_rs_err(m, v);
    let rho = sub_s(ae, scale3_s(s, r));
    assert(-s < rho.x < s && -s < rho.y < s && -s < rho.z < s);
    assert(scale3_s(s, r) == sub_s(ae, rho));
    lemma_norm2_sub(ae, rho);
    assert(norm2_s(scale3_s(s, r)) == (s * r.x) * (s * r.x) + (s * r.y) * (s * r.y) + (s * r.z) * (
    s * r.z));
    assert(norm2_s(scale3_s(s, r)) == (s * s) * norm2_s(r)) by (nonlinear_arith)
        requires
            norm2_s(scale3_s(s, r)) == (s * r.x) * (s * r.x) + (s * r.y) * (s * r.y) + (s * r.z)
                * (s * r.z),
            norm2_s(r) == r.x * r.x + r.y * r.y + r.z * r.z,
    ;
    lemma_orthonormal_preserves_norm2(m, v);
    lemma_mul_bound(ae.x, rho.x, 3 * (s * b), s);
    lemma_mul_bound(ae.y, rho.y, 3 * (s * b), s);
    lemma_mul_bound(ae.z, rho.z, 3 * (s * b), s);
    assert((3 * (s * b)) * s == 3 * ((s * s) * b)) by (nonlinear_arith);
    assert(0 <= rho.x * rho.x < s * s) by (nonlinear_arith)
        requires
            -s < rho.x < s,
            s >= 1,
    ;
    assert(0 <= rho.y * rho.y < s * s) by (nonlinear_arith)
        requires
            -s < rho.y < s,
            s >= 1,
    ;
    assert(0 <= rho.z * rho.z < s * s) by (nonlinear_arith)
        requires
            -s < rho.z < s,
            s >= 1,
    ;
    let delta = norm2_s(r) - norm2_s(v);
    assert((s * s) * delta == (s * s) * norm2_s(r) - (s * s) * norm2_s(v)) by (nonlinear_arith)
        requires
            delta == norm2_s(r) - norm2_s(v),
    ;
    assert((s * s) * delta == -(2 * (ae.x * rho.x + ae.y * rho.y + ae.z * rho.z)) + norm2_s(rho));
    assert(-((s * s) * (18 * b + 4)) < (s * s) * delta < (s * s) * (18 * b + 4))
        by (nonlinear_arith)
        requires
            (s * s) * delta >= -(2 * (3 * (3 * ((s * s) * b)))) && (s * s) * delta <= 2 * (3 * (3
                * ((s * s) * b))) + 3 * (s * s),
            s >= 1,
            b >= 0,
    ;
    assert(-(18 * b + 4) < delta < 18 * b + 4) by (nonlinear_arith)
        requires
            -((s * s) * (18 * b + 4)) < (s * s) * delta < (s * s) * (18 * b + 4),
            s >= 1,
    ;
}

/// Rotating by three separate rounded single-axis calls differs from one
/// rounded combined call only by bounded round-off: at the combined scale
/// `SCALE^3` the gap in each coordinate is below `14 * SCALE^3` plus
/// `3 * SCALE^2` per unit of coordinate magnitude.
pub proof fn lemma_three_calls_roundoff(tx: Trig, ty: Trig, tz: Trig, v: V3, b: int)
    requires
        trig_ok(tx),
        trig_ok(ty),
        trig_ok(tz),
        -b <= v.x <= b,
        -b <= v.y <= b,
        -b <= v.z <= b,
        0 <= b,
    ensures
        ({
            let s = SCALE as int;
            let seq3 = apply_rs(rot_z_es(tz), apply_rs(rot_y_es(ty), apply_rs(rot_x_es(tx), v)));
            let comb = apply_rs(euler_s(tx, ty, tz), v);
            &&& -(14 * ((s * s) * s) + 3 * ((s * s) * b)) < ((s * s) * s) * (seq3.x - comb.x) < 14
                * ((s * s) * s) + 3 * ((s * s) * b)
            &&& -(14 * ((s * s) * s) + 3 * ((s * s) * b)) < ((s * s) * s) * (seq3.y - comb.y) < 14
                * ((s * s) * s) + 3 * ((s * s) * b)
            &&& -(14 * ((s * s) * s) + 3 * ((s * s) * b)) < ((s * s) * s) * (seq3.z - comb.z) < 14
                * ((s * s) * s) + 3 * ((s * s) * b)
        }),
{
    let s = SCALE as int;
    lemma_seq_roundoff(tx, ty, tz, v);
    lemma_comb_roundoff(tx, ty, tz, v, b);
    let seq3 = apply_rs(rot_z_es(tz), apply_rs(rot_y_es(ty), apply_rs(rot_x_es(tx), v)));
    let comb = apply_rs(euler_s(tx, ty, tz), v);
    assert(((s * s) * s) * (seq3.x - comb.x) == ((s * s) * s) * seq3.x - ((s * s) * s) * comb.x)
        by (nonlinear_arith);
    assert(((s * s) * s) * (seq3.y - comb.y) == ((s * s) * s) * seq3.y - ((s * s) * s) * comb.y)
        by (nonlinear_arith);
    assert(((s * s) * s) * (seq3.z - comb.z) == ((s * s) * s) * seq3.z - ((s * s) * s) * comb.z)
        by (nonlinear_arith);
}

/// A single-axis sine/cosine pair on the unit circle gives exactly
/// orthonormal single-axis rotations.
pub proof fn lemma_rot_orthonormal(t: Trig)
    requires
        (t.sin as int) * (t.sin as int) + (t.cos as int) * (t.cos as int) == (SCALE as int) * (
        SCALE as int),
    ensures
        cols_orthonormal(rot_x_es(t)),
        cols_orthonormal(rot_y_es(t)),
        cols_orthonormal(rot_z_es(t)),
{
    let s = t.sin as int;
    let c = t.cos as int;
    assert((-s) * (-s) == s * s && (-s) * c == -(s * c) && c * (-s) == -(c * s) && s * c == c
        * s && 0 * 0 == 0) by (nonlinear_arith);
}

/// With the other two angles zero, the combined Euler rotation collapses
/// exactly to the matching single-axis rotation.
pub proof fn lemma_euler_single_axis(t: Trig)
    ensures
        euler_s(t, trig_id(), trig_id()) == rot_x_es(t),
        euler_s(trig_id(), t, trig_id()) == rot_y_es(t),
        euler_s(trig_id(), trig_id(), t) == rot_z_es(t),
{
    let s = SCALE as int;
    let s2 = s * s;
    let sx = t.sin as int;
    let cx = t.cos as int;
    assert(s2 == 0x1_0000_0000);
    let nx = euler_num_es(t, trig_id(), trig_id());
    assert(nx.e00 == s * s * s && nx.e01 == 0 && nx.e02 == 0 && nx.e10 == 0 && nx.e20 == 0);
    assert(s * s * s == s * s2) by (nonlinear_arith)
        requires
            s2 == s * s,
    ;
    assert(nx.e11 == s * cx * s && nx.e22 == s * cx * s && nx.e21 == s * sx * s && nx.e12 == -(s
        * sx * s));
    assert(s * cx * s == cx * s2) by (nonlinear_arith)
        requires
            s2 == s * s,
    ;
    assert(s * sx * s == sx * s2) by (nonlinear_arith)
        requires
            s2 == s * s,
    ;
    let ny = euler_num_es(trig_id(), t, trig_id());
    let sy = t.sin as int;
    let cy = t.cos as int;
    assert(ny.e00 == s * cy * s && ny.e02 == s * sy * s && ny.e11 == s * s * s && ny.e20 == -(sy
        * s * s) && ny.e22 == s * cy * s);
    assert(ny.e01 == 0 && ny.e10 == 0 && ny.e12 == 0 && ny.e21 == 0);
    assert(s * cy * s == cy * s2) by (nonlinear_arith)
        requires
            s2 == s * s,
    ;
    assert(s * sy * s == sy * s2) by (nonlinear_arith)
        requires
            s2 == s * s,
    ;
    assert(sy * s * s == sy * s2) by (nonlinear_arith)
        requires
            s2 == s * s,
    ;
    let nz = euler_num_es(trig_id(), trig_id(), t);
    let sz = t.sin as int;
    let cz = t.cos as int;
    assert(nz.e00 == cz * s * s && nz.e01 == -(sz * s * s) && nz.e10 == sz * s * s && nz.e11 == cz
        * s * s && nz.e22 == s * s * s);
    assert(nz.e02 == 0 && nz.e12 == 0 && nz.e20 == 0 && nz.e21 == 0);
    assert(cz * s * s == cz * s2) by (nonlinear_arith)
        requires
            s2 == s * s,
    ;
    assert(sz * s * s == sz * s2) by (nonlinear_arith)
        requires
            s2 == s * s,
    ;
    lemma_qtz_exact(s, s2);
    lemma_qtz_exact(cx, s2);
    lemma_qtz_exact(sx, s2);
    lemma_qtz_exact(-sx, s2);
    lemma_qtz_exact(-(t.sin as int), s2);
    lemma_qtz_exact(0, s2);
    assert(-(sx * s2) == (-sx) * s2) by (nonlinear_arith);
}

impl Mat3 {
    /// The fixed-point rotation about the x axis.
    pub fn rot_x(t: Trig) -> (m: Mat3)
        requires
            trig_ok(t),
        ensures
            m3(m) == rot_x_es(t),
            mat_in_range(m, SCALE as int),
    {
        Mat3 {
            m00: SCALE,
            m01: 0,
            m02: 0,
            m10: 0,
            m11: t.cos,
            m12: -t.sin,
            m20: 0,
            m21: t.sin,
            m22: t.cos,
        }
    }

    /// The fixed-point rotation about the y axis.
    pub fn rot_y(t: Trig) -> (m: Mat3)
        requires
            trig_ok(t),
        ensures
            m3(m) == rot_y_es(t),
            mat_in_range(m, SCALE as int),
    {
        Mat3 {
            m00: t.cos,
            m01: 0,
            m02: t.sin,
            m10: 0,
            m11: SCALE,
            m12: 0,
            m20: -t.sin,
            m21: 0,
            m22: t.cos,
        }
    }

    /// The fixed-point rotation about the z axis.
    pub fn rot_z(t: Trig) -> (m: Mat3)
        requires
            trig_ok(t),
        ensures
            m3(m) == rot_z_es(t),
            mat_in_range(m, SCALE as int),
    {
        Mat3 {
            m00: t.cos,
            m01: -t.sin,
            m02: 0,
            m10: t.sin,
            m11: t.cos,
            m12: 0,
            m20: 0,
            m21: 0,
            m22: SCALE,
        }
    }

    /// The combined Euler rotation `Rz * Ry * Rx` from three sine/cosine
    /// pairs, computed from the closed-form numerators in one rounding step.
    pub fn from_euler(tx: Trig, ty: Trig, tz: Trig) -> (m: Mat3)
        requires
            trig_ok(tx),
            trig_ok(ty),
            trig_ok(tz),
        ensures
            m3(m) == euler_s(tx, ty, tz),
            mat_in_range(m, 2 * SCALE as int),
    {
        let sx = tx.sin as i128;
        let cx = tx.cos as i128;
        let sy = ty.sin as i128;
        let cy = ty.cos as i128;
        let sz = tz.sin as i128;
        let cz = tz.cos as i128;
        let s = SCALE as i128;
        let s2 = s * s;
        proof {
            let si = SCALE as int;
            let s3 = si * si * si;
            lemma_triple_bound(tz.cos as int, ty.cos as int, si);
            lemma_triple_bound(tz.cos as int, ty.sin as int, tx.sin as int);
            lemma_triple_bound(tz.sin as int, tx.cos as int, si);
            lemma_triple_bound(tz.cos as int, ty.sin as int, tx.cos as int);
            lemma_triple_bound(tz.sin as int, tx.sin as int, si);
            lemma_triple_bound(tz.sin as int, ty.cos as int, si);
            lemma_triple_bound(tz.sin as int, ty.sin as int, tx.sin as int);
            lemma_triple_bound(tz.cos as int, tx.cos as int, si);
            lemma_triple_bound(tz.sin as int, ty.sin as int, tx.cos as int);
            lemma_triple_bound(tz.cos as int, tx.sin as int, si);
            lemma_triple_bound(ty.sin as int, si, si);
            lemma_triple_bound(ty.cos as int, tx.sin as int, si);
            lemma_triple_bound(ty.cos as int, tx.cos as int, si);
        }
        let n00 = cz * cy * s;
        let n01 = cz * sy * sx - sz * cx * s;
        let n02 = cz * sy * cx + sz * sx * s;
        let n10 = sz * cy * s;
        let n11 = sz * sy * sx + cz * cx * s;
        let n12 = sz * sy * cx - cz * sx * s;
        let n20 = -(sy * s * s);
        let n21 = cy * sx * s;
        let n22 = cy * cx * s;
        proof {
            let si = SCALE as int;
            let n = euler_num_es(tx, ty, tz);
            lemma_qtz_bound(n.e00, si * si, 2 * si);
            lemma_qtz_bound(n.e01, si * si, 2 * si);
            lemma_qtz_bound(n.e02, si * si, 2 * si);
            lemma_qtz_bound(n.e10, si * si, 2 * si);
            lemma_qtz_bound(n.e11, si * si, 2 * si);
            lemma_qtz_bound(n.e12, si * si, 2 * si);
            lemma_qtz_bound(n.e20, si * si, 2 * si);
            lemma_qtz_bound(n.e21, si * si, 2 * si);
            lemma_qtz_bound(n.e22, si * si, 2 * si);
            assert(2 * si * (si * si) == 2 * (si * si * si)) by (nonlinear_arith);
        }
        Mat3 {
            m00: div_tz(n00, s2) as i64,
            m01: div_tz(n01, s2) as i64,
            m02: div_tz(n02, s2) as i64,
            m10: div_tz(n10, s2) as i64,
            m11: div_tz(n11, s2) as i64,
            m12: div_tz(n12, s2) as i64,
            m20: div_tz(n20, s2) as i64,
            m21: div_tz(n21, s2) as i64,
            m22: div_tz(n22, s2) as i64,
        }
    }

    /// Fixed-point matrix-vector product, rounded toward zero per component.
    pub fn apply(&self, v: Vec3) -> (r: Vec3)
        requires
            mat_in_range(*self, 2 * SCALE as int),
            in_range(v, 0x4000_0000),
        ensures
            v3(r) == apply_rs(m3(*self), v3(v)),
            in_range(r, 0x1_8000_0000),
    {
        proof {
            let b = 2 * SCALE as int;
            lemma_mul_bound(self.m00 as int, v.x as int, b, 0x4000_0000);
            lemma_mul_bound(self.m01 as int, v.y as int, b, 0x4000_0000);
            lemma_mul_bound(self.m02 as int, v.z as int, b, 0x4000_0000);
            lemma_mul_bound(self.m10 as int, v.x as int, b, 0x4000_0000);
            lemma_mul_bound(self.m11 as int, v.y as int, b, 0x4000_0000);
            lemma_mul_bound(self.m12 as int, v.z as int, b, 0x4000_0000);
            lemma_mul_bound(self.m20 as int, v.x as int, b, 0x4000_0000);
            lemma_mul_bound(self.m21 as int, v.y as int, b, 0x4000_0000);
            lemma_mul_bound(self.m22 as int, v.z as int, b, 0x4000_0000);
            let e = apply_es(m3(*self), v3(v));
            lemma_qtz_bound(e.x, SCALE as int, 0x1_8000_0000);
            lemma_qtz_bound(e.y, SCALE as int, 0x1_8000_0000);
            lemma_qtz_bound(e.z, SCALE as int, 0x1_8000_0000);
        }
        let rx = (self.m00 as i128) * (v.x as i128) + (self.m01 as i128) * (v.y as i128) + (
        self.m02 as i128) * (v.z as i128);
        let ry = (self.m10 as i128) * (v.x as i128) + (self.m11 as i128) * (v.y as i128) + (
        self.m12 as i128) * (v.z as i128);
        let rz = (self.m20 as i128) * (v.x as i128) + (self.m21 as i128) * (v.y as i128) + (
        self.m22 as i128) * (v.z as i128);
        Vec3 {
            x: div_tz(rx, SCALE as i128) as i64,
            y: div_tz(ry, SCALE as i128) as i64,
            z: div_tz(rz, SCALE as i128) as i64,
        }
    }
}

/// A product of three factors bounded by `SCALE` (the third by `b3`) is
/// bounded by `SCALE * SCALE * b3`.
proof fn lemma_triple_bound(a: int, b: int, c: int)
    by (nonlinear_arith)
    requires
        -SCALE <= a <= SCALE,
        -SCALE <= b <= SCALE,
        -SCALE <= c <= SCALE,
    ensures
        -((SCALE as int) * (SCALE as int)) <= a * b <= (SCALE as int) * (SCALE as int),
        -((SCALE as int) * (SCALE as int) * (SCALE as int)) <= a * b * c <= (SCALE as int) * (
        SCALE as int) * (SCALE as int),
{
}

} // verus!
