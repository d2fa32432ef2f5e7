//! Three-component fixed-point vectors and the exact integer model behind
//! them.
//!
//! [`Vec3`] is the executable value: three `i64` fixed-point components.
//! [`V3`] is its mathematical shadow over unbounded integers; every
//! executable operation's contract states its result as a `V3` formula.

use vstd::prelude::*;
use crate::fixed::SCALE;
use crate::fixed::lemma_mul_bound;
use crate::fixed::lemma_qtz_bound;
use crate::fixed::lemma_sqrt_props;
use crate::fixed::qtz;
use crate::fixed::sqrt_floor;
use crate::fixed::div_tz;
use crate::fixed::isqrt;

verus! {

/// A vector of three fixed-point coordinates.
#[derive(Clone, Copy, PartialEq, Eq, Structural, Debug)]
pub struct Vec3 {
    pub x: i64,
    pub y: i64,
    pub z: i64,
}

/// The mathematical value of a vector: three unbounded integers.
pub struct V3 {
    pub x: int,
    pub y: int,
    pub z: int,
}

/// The mathematical value of an executable vector.
pub open spec fn v3(v: Vec3) -> V3 {
    V3 { x: v.x as int, y: v.y as int, z: v.z as int }
}

/// Every component of `v` has magnitude at most `b`.
pub open spec fn in_range(v: Vec3, b: int) -> bool {
    &&& -b <= v.x <= b
    &&& -b <= v.y <= b
    &&& -b <= v.z <= b
}

/// Componentwise sum.
pub open spec fn add_s(a: V3, b: V3) -> V3 {
    V3 { x: a.x + b.x, y: a.y + b.y, z: a.z + b.z }
}

/// Componentwise difference.
pub open spec fn sub_s(a: V3, b: V3) -> V3 {
    V3 { x: a.x - b.x, y: a.y - b.y, z: a.z - b.z }
}

/// Componentwise product with an exact scalar.
pub open spec fn scale3_s(k: int, a: V3) -> V3 {
    V3 { x: k * a.x, y: k * a.y, z: k * a.z }
}

/// Exact scalar product of the raw integer components, carrying scale
/// `SCALE * SCALE`.
pub open spec fn dot_s(a: V3, b: V3) -> int {
    a.x * b.x + a.y * b.y + a.z * b.z
}

/// Exact cross product of the raw integer components, carrying scale
/// `SCALE * SCALE`.
pub open spec fn cross_s(a: V3, b: V3) -> V3 {
    V3 {
        x: a.y * b.z - a.z * b.y,
        y: a.z * b.x - a.x * b.z,
        z: a.x * b.y - a.y * b.x,
    }
}

/// Exact squared norm of the raw integer components.
pub open spec fn norm2_s(a: V3) -> int {
    dot_s(a, a)
}

/// The unit-length direction of `a`, in fixed-point components: each raw
/// component is scaled by `SCALE` and divided by the floor square root of
/// the raw squared norm.
pub open spec fn normalize_s(a: V3) -> V3 {
    let r = sqrt_floor(norm2_s(a));
    V3 { x: qtz(a.x * SCALE, r), y: qtz(a.y * SCALE, r), z: qtz(a.z * SCALE, r) }
}

/// A squared norm dominates the square of each component.
pub proof fn lemma_component_sq_le_norm2(a: V3)
    ensures
        a.x * a.x <= norm2_s(a),
        a.y * a.y <= norm2_s(a),
        a.z * a.z <= norm2_s(a),
        norm2_s(a) >= 0,
{
    assert(a.x * a.x >= 0 && a.y * a.y >= 0 && a.z * a.z >= 0) by (nonlinear_arith);
}

/// A component whose square is at most `q` has magnitude at most
/// `sqrt_floor(q)`.
pub proof fn lemma_abs_le_sqrt(c: int, q: int)
    requires
        c * c <= q,
    ensures
        -sqrt_floor(q) <= c <= sqrt_floor(q),
{
    assert(q >= 0) by (nonlinear_arith)
        requires
            c * c <= q,
    ;
    lemma_sqrt_props(q);
    let r = sqrt_floor(q);
    assert(-r <= c <= r) by (nonlinear_arith)
        requires
            0 <= r,
            c * c <= q,
            q < (r + 1) * (r + 1),
    ;
}

impl Vec3 {
    /// Build a vector from its three fixed-point components.
    pub fn new(x: i64, y: i64, z: i64) -> (r: Vec3)
        ensures
            r == (Vec3 { x, y, z }),
    {
        Vec3 { x, y, z }
    }

    /// Componentwise sum.
    pub fn add(self, other: Vec3) -> (r: Vec3)
        requires
            in_range(self, 0x2000_0000_0000_0000),
            in_range(other, 0x2000_0000_0000_0000),
        ensures
            v3(r) == add_s(v3(self), v3(other)),
    {
        Vec3 { x: self.x + other.x, y: self.y + other.y, z: self.z + other.z }
    }

    /// Componentwise difference.
    pub fn sub(self, other: Vec3) -> (r: Vec3)
        requires
            in_range(self, 0x2000_0000_0000_0000),
            in_range(other, 0x2000_0000_0000_0000),
        ensures
            v3(r) == sub_s(v3(self), v3(other)),
    {
        Vec3 { x: self.x - other.x, y: self.y - other.y, z: self.z - other.z }
    }

    /// Fixed-point scalar multiply: each component becomes
    /// `qtz(component * k, SCALE)`.
    pub fn scale(self, k: i64) -> (r: Vec3)
        requires
            in_range(self, 0x1_0000_0000),
            -0x1_0000_0000 <= k <= 0x1_0000_0000,
        ensures
            v3(r).x == qtz(self.x * k, SCALE as int),
            v3(r).y == qtz(self.y * k, SCALE as int),
            v3(r).z == qtz(self.z * k, SCALE as int),
    {
        proof {
            lemma_mul_bound(self.x as int, k as int, 0x1_0000_0000, 0x1_0000_0000);
            lemma_mul_bound(self.y as int, k as int, 0x1_0000_0000, 0x1_0000_0000);
            lemma_mul_bound(self.z as int, k as int, 0x1_0000_0000, 0x1_0000_0000);
            lemma_qtz_bound(self.x * k, SCALE as int, 0x1_0000_0000_0000);
            lemma_qtz_bound(self.y * k, SCALE as int, 0x1_0000_0000_0000);
            lemma_qtz_bound(self.z * k, SCALE as int, 0x1_0000_0000_0000);
        }
        let x = div_tz((self.x as i128) * (k as i128), SCALE as i128) as i64;
        let y = div_tz((self.y as i128) * (k as i128), SCALE as i128) as i64;
        let z = div_tz((self.z as i128) * (k as i128), SCALE as i128) as i64;
        Vec3 { x, y, z }
    }

    /// Fixed-point dot product: `qtz` of the raw scalar product by `SCALE`.
    pub fn dot(self, other: Vec3) -> (r: i64)
        requires
            in_range(self, 0x1_0000_0000),
            in_range(other, 0x1_0000_0000),
        ensures
            r == qtz(dot_s(v3(self), v3(other)), SCALE as int),
    {
        proof {
            lemma_mul_bound(self.x as int, other.x as int, 0x1_0000_0000, 0x1_0000_0000);
            lemma_mul_bound(self.y as int, other.y as int, 0x1_0000_0000, 0x1_0000_0000);
            lemma_mul_bound(self.z as int, other.z as int, 0x1_0000_0000, 0x1_0000_0000);
            lemma_qtz_bound(
                dot_s(v3(self), v3(other)),
                SCALE as int,
                0x3_0000_0000_0000,
            );
        }
        let raw = (self.x as i128) * (other.x as i128) + (self.y as i128) * (other.y as i128) + (
        self.z as i128) * (other.z as i128);
        div_tz(raw, SCALE as i128) as i64
    }

    /// Fixed-point cross product: `qtz` of each raw component by `SCALE`.
    pub fn cross(self, other: Vec3) -> (r: Vec3)
        requires
            in_range(self, 0x1_0000_0000),
            in_range(other, 0x1_0000_0000),
        ensures
            v3(r).x == qtz(cross_s(v3(self), v3(other)).x, SCALE as int),
            v3(r).y == qtz(cross_s(v3(self), v3(other)).y, SCALE as int),
            v3(r).z == qtz(cross_s(v3(self), v3(other)).z, SCALE as int),
    {
        proof {
            lemma_mul_bound(self.y as int, other.z as int, 0x1_0000_0000, 0x1_0000_0000);
            lemma_mul_bound(self.z as int, other.y as int, 0x1_0000_0000, 0x1_0000_0000);
            lemma_mul_bound(self.z as int, other.x as int, 0x1_0000_0000, 0x1_0000_0000);
            lemma_mul_bound(self.x as int, other.z as int, 0x1_0000_0000, 0x1_0000_0000);
            lemma_mul_bound(self.x as int, other.y as int, 0x1_0000_0000, 0x1_0000_0000);
            lemma_mul_bound(self.y as int, other.x as int, 0x1_0000_0000, 0x1_0000_0000);
            lemma_qtz_bound(cross_s(v3(self), v3(other)).x, SCALE as int, 0x2_0000_0000_0000);
            lemma_qtz_bound(cross_s(v3(self), v3(other)).y, SCALE as int, 0x2_0000_0000_0000);
            lemma_qtz_bound(cross_s(v3(self), v3(other)).z, SCALE as int, 0x2_0000_0000_0000);
        }
        let cx = (self.y as i128) * (other.z as i128) - (self.z as i128) * (other.y as i128);
        let cy = (self.z as i128) * (other.x as i128) - (self.x as i128) * (other.z as i128);
        let cz = (self.x as i128) * (other.y as i128) - (self.y as i128) * (other.x as i128);
        Vec3 {
            x: div_tz(cx, SCALE as i128) as i64,
            y: div_tz(cy, SCALE as i128) as i64,
            z: div_tz(cz, SCALE as i128) as i64,
        }
    }

    /// Fixed-point squared norm: `qtz` of the raw squared norm by `SCALE`.
    pub fn norm2(self) -> (r: i64)
        requires
            in_range(self, 0x1_0000_0000),
        ensures
            r == qtz(norm2_s(v3(self)), SCALE as int),
    {
        self.dot(self)
    }

    /// The unit-length direction of a nonzero vector, via the exact integer
    /// square root of the raw squared norm.
    pub fn normalize(self) -> (r: Vec3)
        requires
            in_range(self, 0x1_0000_0000),
            norm2_s(v3(self)) > 0,
        ensures
            v3(r) == normalize_s(v3(self)),
            in_range(r, SCALE as int),
    {
        proof {
            lemma_mul_bound(self.x as int, self.x as int, 0x1_0000_0000, 0x1_0000_0000);
            lemma_mul_bound(self.y as int, self.y as int, 0x1_0000_0000, 0x1_0000_0000);
            lemma_mul_bound(self.z as int, self.z as int, 0x1_0000_0000, 0x1_0000_0000);
            lemma_component_sq_le_norm2(v3(self));
        }
        let q2 = (self.x as i128) * (self.x as i128) + (self.y as i128) * (self.y as i128) + (
        self.z as i128) * (self.z as i128);
        let r = isqrt(q2 as u128) as i128;
        proof {
            let q = norm2_s(v3(self));
            let rr = sqrt_floor(q);
            assert(rr == r);
            assert(rr >= 1) by (nonlinear_arith)
                requires
                    rr >= 0,
                    q > 0,
                    q < (rr + 1) * (rr + 1),
            ;
            lemma_abs_le_sqrt(v3(self).x, q);
            lemma_abs_le_sqrt(v3(self).y, q);
            lemma_abs_le_sqrt(v3(self).z, q);
            lemma_mul_bound(v3(self).x, SCALE as int, rr, SCALE as int);
            lemma_mul_bound(v3(self).y, SCALE as int, rr, SCALE as int);
            lemma_mul_bound(v3(self).z, SCALE as int, rr, SCALE as int);
            assert(rr * (SCALE as int) == (SCALE as int) * rr) by (nonlinear_arith);
            lemma_qtz_bound(v3(self).x * SCALE, rr, SCALE as int);
            lemma_qtz_bound(v3(self).y * SCALE, rr, SCALE as int);
            lemma_qtz_bound(v3(self).z * SCALE, rr, SCALE as int);
        }
        Vec3 {
            x: div_tz((self.x as i128) * (SCALE as i128), r) as i64,
            y: div_tz((self.y as i128) * (SCALE as i128), r) as i64,
            z: div_tz((self.z as i128) * (SCALE as i128), r) as i64,
        }
    }
}

} // verus!
