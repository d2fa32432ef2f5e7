//! Triangles with a cached unit-length surface normal.
//!
//! A [`Polygon`] owns exactly three vertices and the fixed-point unit
//! normal of the plane they span, computed once at construction from the
//! cross product of two edges.  Rigid rotations transform the vertices and
//! the cached normal by the same matrix, which keeps the cache valid
//! because rotations preserve normals; this shortcut is not valid for
//! other linear maps, so the transform functions take a rotation matrix.

use vstd::prelude::*;
use crate::fixed::COORD_MAX;
use crate::fixed::CROSS2_MIN;
use crate::fixed::SCALE;
use crate::fixed::lemma_mul_bound;
use crate::fixed::lemma_qtz_bound;
use crate::fixed::lemma_sqrt_props;
use crate::fixed::qtz;
use crate::fixed::sqrt_floor;
use crate::fixed::div_tz;
use crate::fixed::isqrt;
use crate::matrix::Mat3;
use crate::matrix::apply_rs;
use crate::matrix::m3;
use crate::matrix::mat_in_range;
use crate::vec3::V3;
use crate::vec3::Vec3;
use crate::vec3::cross_s;
use crate::vec3::in_range;
use crate::vec3::lemma_abs_le_sqrt;
use crate::vec3::lemma_component_sq_le_norm2;
use crate::vec3::norm2_s;
use crate::vec3::normalize_s;
use crate::vec3::sub_s;
use crate::vec3::v3;

verus! {

/// Three vertices, in order.
#[derive(Clone, Copy, PartialEq, Eq, Structural, Debug)]
pub struct Tri {
    pub a: Vec3,
    pub b: Vec3,
    pub c: Vec3,
}

/// All three vertices are componentwise within `b`.
pub open spec fn tri_in_range(t: Tri, b: int) -> bool {
    in_range(t.a, b) && in_range(t.b, b) && in_range(t.c, b)
}

/// The raw (unnormalized) surface normal of a triangle: the cross product
/// of its two edges out of the first vertex.
pub open spec fn tri_cross_s(t: Tri) -> V3 {
    cross_s(sub_s(v3(t.b), v3(t.a)), sub_s(v3(t.c), v3(t.a)))
}

/// The fixed-point unit surface normal of a triangle.
pub open spec fn tri_normal_s(t: Tri) -> V3 {
    normalize_s(tri_cross_s(t))
}

/// Construction fails only on a degenerate triangle: one whose area is zero
/// or too small for the fixed-point normal to be meaningful.
#[derive(Clone, Copy, PartialEq, Eq, Structural, Debug)]
pub enum GeomError {
    Degenerate,
}

/// A triangle and its cached fixed-point unit surface normal.
#[derive(Clone, Copy, PartialEq, Eq, Structural, Debug)]
pub struct Polygon {
    pub points: Tri,
    pub normal: Vec3,
}

/// The polygon a triangle constructs: the triangle itself with the cached
/// fixed-point unit normal of its plane.
pub open spec fn normal_image_s(t: Tri) -> Polygon {
    let n = tri_normal_s(t);
    Polygon { points: t, normal: Vec3 { x: n.x as i64, y: n.y as i64, z: n.z as i64 } }
}

impl Polygon {
    /// Build a polygon from three vertices, computing the unit normal from
    /// the exact cross product of the edges.  A triangle whose area is zero
    /// or below the fixed-point resolution has no usable normal direction
    /// and is rejected, so every constructed normal is within tolerance of
    /// unit length.
    pub fn new(points: Tri) -> (r: Result<Polygon, GeomError>)
        requires
            tri_in_range(points, COORD_MAX as int),
        ensures
            match r {
                Ok(p) => {
                    &&& p == normal_image_s(points)
                    &&& p.points == points
                    &&& v3(p.normal) == tri_normal_s(points)
                    &&& in_range(p.normal, SCALE as int)
                    &&& norm2_s(tri_cross_s(points)) >= CROSS2_MIN
                    &&& (SCALE as int) * (SCALE as int) - 6 * SCALE <= norm2_s(v3(p.normal))
                        <= (SCALE as int) * (SCALE as int) + 0x80_0000
                },
                Err(e) => e == GeomError::Degenerate && norm2_s(tri_cross_s(points)) < CROSS2_MIN,
            },
    {
        let e1x = (points.b.x - points.a.x) as i128;
        let e1y = (points.b.y - points.a.y) as i128;
        let e1z = (points.b.z - points.a.z) as i128;
        let e2x = (points.c.x - points.a.x) as i128;
        let e2y = (points.c.y - points.a.y) as i128;
        let e2z = (points.c.z - points.a.z) as i128;
        proof {
            lemma_mul_bound(e1y as int, e2z as int, 0x400_0000, 0x400_0000);
            lemma_mul_bound(e1z as int, e2y as int, 0x400_0000, 0x400_0000);
            lemma_mul_bound(e1z as int, e2x as int, 0x400_0000, 0x400_0000);
            lemma_mul_bound(e1x as int, e2z as int, 0x400_0000, 0x400_0000);
            lemma_mul_bound(e1x as int, e2y as int, 0x400_0000, 0x400_0000);
            lemma_mul_bound(e1y as int, e2x as int, 0x400_0000, 0x400_0000);
        }
        let cx = e1y * e2z - e1z * e2y;
        let cy = e1z * e2x - e1x * e2z;
        let cz = e1x * e2y - e1y * e2x;
        let ghost cv = tri_cross_s(points);
        assert(cx as int == cv.x && cy as int == cv.y && cz as int == cv.z);
        proof {
            lemma_mul_bound(cv.x, cv.x, 0x20_0000_0000_0000, 0x20_0000_0000_0000);
            lemma_mul_bound(cv.y, cv.y, 0x20_0000_0000_0000, 0x20_0000_0000_0000);
            lemma_mul_bound(cv.z, cv.z, 0x20_0000_0000_0000, 0x20_0000_0000_0000);
            lemma_component_sq_le_norm2(cv);
        }
        let q = cx * cx + cy * cy + cz * cz;
        if q < CROSS2_MIN as i128 {
            return Err(GeomError::Degenerate);
        }
        let r = isqrt(q as u128) as i128;
        proof {
            let qi = norm2_s(cv);
            let rr = sqrt_floor(qi);
            assert(rr == r as int);
            assert(rr >= 1) by (nonlinear_arith)
                requires
                    rr >= 0,
                    qi > 0,
                    qi < (rr + 1) * (rr + 1),
            ;
            lemma_abs_le_sqrt(cv.x, qi);
            lemma_abs_le_sqrt(cv.y, qi);
            lemma_abs_le_sqrt(cv.z, qi);
            lemma_mul_bound(cv.x, SCALE as int, rr, SCALE as int);
            lemma_mul_bound(cv.y, SCALE as int, rr, SCALE as int);
            lemma_mul_bound(cv.z, SCALE as int, rr, SCALE as int);
            assert(rr * (SCALE as int) == (SCALE as int) * rr) by (nonlinear_arith);
            lemma_qtz_bound(cv.x * SCALE, rr, SCALE as int);
            lemma_qtz_bound(cv.y * SCALE, rr, SCALE as int);
            lemma_qtz_bound(cv.z * SCALE, rr, SCALE as int);
        }
        let normal = Vec3 {
            x: div_tz(cx * (SCALE as i128), r) as i64,
            y: div_tz(cy * (SCALE as i128), r) as i64,
            z: div_tz(cz * (SCALE as i128), r) as i64,
        };
        proof {
            lemma_normal_unit_length(points);
            assert(v3(normal) == tri_normal_s(points));
            assert(normal == normal_image_s(points).normal);
        }
        Ok(Polygon { points, normal })
    }

    /// Rotate the triangle into a new polygon: every vertex and the cached
    /// normal are multiplied by the same matrix.  Valid as a normal cache
    /// only for rigid rotations.
    pub fn transform(&self, m: &Mat3) -> (r: Polygon)
        requires
            mat_in_range(*m, 2 * SCALE as int),
            tri_in_range(self.points, 0x4000_0000),
            in_range(self.normal, 0x4000_0000),
        ensures
            v3(r.points.a) == apply_rs(m3(*m), v3(self.points.a)),
            v3(r.points.b) == apply_rs(m3(*m), v3(self.points.b)),
            v3(r.points.c) == apply_rs(m3(*m), v3(self.points.c)),
            v3(r.normal) == apply_rs(m3(*m), v3(self.normal)),
            tri_in_range(r.points, 0x1_8000_0000),
            in_range(r.normal, 0x1_8000_0000),
    {
        Polygon {
            points: Tri { a: m.apply(self.points.a), b: m.apply(self.points.b), c: m.apply(
                self.points.c,
            ) },
            normal: m.apply(self.normal),
        }
    }

    /// Rotate the triangle in place; the same computation as
    /// [`Polygon::transform`], mutating this polygon.
    pub fn transform_inplace(&mut self, m: &Mat3)
        requires
            mat_in_range(*m, 2 * SCALE as int),
            tri_in_range(old(self).points, 0x4000_0000),
            in_range(old(self).normal, 0x4000_0000),
        ensures
            v3(final(self).points.a) == apply_rs(m3(*m), v3(old(self).points.a)),
            v3(final(self).points.b) == apply_rs(m3(*m), v3(old(self).points.b)),
            v3(final(self).points.c) == apply_rs(m3(*m), v3(old(self).points.c)),
            v3(final(self).normal) == apply_rs(m3(*m), v3(old(self).normal)),
            tri_in_range(final(self).points, 0x1_8000_0000),
            in_range(final(self).normal, 0x1_8000_0000),
    {
        let t = self.transform(m);
        *self = t;
    }
}

/// The normalized component `qtz(c * SCALE, r)`, scaled back by `r` and
/// squared, is within one rounding step of the exact value `(c * SCALE)^2`.
proof fn lemma_scaled_div_sq(c: int, r: int)
    requires
        1 <= r,
        -r <= c <= r,
    ensures
        (r * qtz(c * SCALE, r)) * (r * qtz(c * SCALE, r)) <= (c * SCALE) * (c * SCALE),
        (r * qtz(c * SCALE, r)) * (r * qtz(c * SCALE, r)) >= (c * SCALE) * (c * SCALE) - 2 * SCALE
            * (r * r),
{
    let s = SCALE as int;
    let cs = c * s;
    let n = qtz(cs, r);
    let m = r * n;
    assert(cs <= r * s && -cs <= r * s) by (nonlinear_arith)
        requires
            cs == c * s,
            -r <= c <= r,
            s > 0,
    ;
    crate::fixed::lemma_qtz_mag(cs, r);
    if c >= 0 {
        assert(cs >= 0) by (nonlinear_arith)
            requires
                cs == c * s,
                c >= 0,
                s > 0,
        ;
        vstd::arithmetic::div_mod::lemma_fundamental_div_mod(cs, r);
        vstd::arithmetic::div_mod::lemma_mod_bound(cs, r);
        let e = cs % r;
        assert(m == cs - e);
        assert(m >= 0) by (nonlinear_arith)
            requires
                m == r * n,
                n >= 0,
                r >= 1,
        ;
        assert(m * m <= cs * cs && m * m >= cs * cs - 2 * s * (r * r)) by (nonlinear_arith)
            requires
                m == cs - e,
                0 <= e < r,
                0 <= m,
                0 <= cs,
                cs <= r * s,
                s > 0,
                r >= 1,
        ;
    } else {
        assert(cs < 0) by (nonlinear_arith)
            requires
                cs == c * s,
                c < 0,
                s > 0,
        ;
        vstd::arithmetic::div_mod::lemma_fundamental_div_mod(-cs, r);
        vstd::arithmetic::div_mod::lemma_mod_bound(-cs, r);
        let e = (-cs) % r;
        let k = (-cs) / r;
        assert(n == -k);
        assert(m == -(r * k)) by (nonlinear_arith)
            requires
                m == r * n,
                n == -k,
        ;
        assert(r * k == -cs - e);
        assert(m == cs + e);
        assert(m <= 0) by (nonlinear_arith)
            requires
                m == r * n,
                n <= 0,
                r >= 1,
        ;
        assert(m * m <= cs * cs && m * m >= cs * cs - 2 * s * (r * r)) by (nonlinear_arith)
            requires
                m == cs + e,
                0 <= e < r,
                m <= 0,
                cs <= m,
                cs < 0,
                -cs <= r * s,
                s > 0,
                r >= 1,
        ;
    }
}

/// The cached normal has unit length: for any triangle whose raw cross
/// product is not vanishingly small, the squared fixed-point norm of the
/// normal is within a small tolerance of exactly one squared world unit.
pub proof fn lemma_normal_unit_length(t: Tri)
    requires
        norm2_s(tri_cross_s(t)) >= 0x10_0000,
    ensures
        norm2_s(tri_normal_s(t)) >= (SCALE as int) * (SCALE as int) - 6 * SCALE,
        norm2_s(tri_normal_s(t)) <= (SCALE as int) * (SCALE as int) + 0x80_0000,
{
    let s = SCALE as int;
    let cv = tri_cross_s(t);
    let q = norm2_s(cv);
    let r = sqrt_floor(q);
    lemma_sqrt_props(q);
    assert(r >= 1024) by (nonlinear_arith)
        requires
            q >= 0x10_0000,
            r >= 0,
            q < (r + 1) * (r + 1),
    ;
    lemma_component_sq_le_norm2(cv);
    lemma_abs_le_sqrt(cv.x, q);
    lemma_abs_le_sqrt(cv.y, q);
    lemma_abs_le_sqrt(cv.z, q);
    lemma_scaled_div_sq(cv.x, r);
    lemma_scaled_div_sq(cv.y, r);
    lemma_scaled_div_sq(cv.z, r);
    let n = tri_normal_s(t);
    let nn = norm2_s(n);
    assert(n.x == qtz(cv.x * s, r) && n.y == qtz(cv.y * s, r) && n.z == qtz(cv.z * s, r));
    assert((r * n.x) * (r * n.x) == (r * r) * (n.x * n.x)) by (nonlinear_arith);
    assert((r * n.y) * (r * n.y) == (r * r) * (n.y * n.y)) by (nonlinear_arith);
    assert((r * n.z) * (r * n.z) == (r * r) * (n.z * n.z)) by (nonlinear_arith);
    assert((cv.x * s) * (cv.x * s) == (s * s) * (cv.x * cv.x)) by (nonlinear_arith);
    assert((cv.y * s) * (cv.y * s) == (s * s) * (cv.y * cv.y)) by (nonlinear_arith);
    assert((cv.z * s) * (cv.z * s) == (s * s) * (cv.z * cv.z)) by (nonlinear_arith);
    assert((s * s) * (cv.x * cv.x) + (s * s) * (cv.y * cv.y) + (s * s) * (cv.z * cv.z) == (s * s)
        * q) by (nonlinear_arith)
        requires
            q == cv.x * cv.x + cv.y * cv.y + cv.z * cv.z,
    ;
    assert((r * r) * (n.x * n.x) + (r * r) * (n.y * n.y) + (r * r) * (n.z * n.z) == (r * r) * nn)
        by (nonlinear_arith)
        requires
            nn == n.x * n.x + n.y * n.y + n.z * n.z,
    ;
    assert((r * r) * nn <= (s * s) * q);
    assert((r * r) * nn >= (s * s) * q - 6 * s * (r * r));
    assert(q <= r * r + 2 * r) by (nonlinear_arith)
        requires
            q < (r + 1) * (r + 1),
    ;
    assert(nn <= s * s + 0x80_0000) by (nonlinear_arith)
        requires
            (r * r) * nn <= (s * s) * q,
            q <= r * r + 2 * r,
            r >= 1024,
            s == 65536,
    ;
    assert(nn >= s * s - 6 * s) by (nonlinear_arith)
        requires
            (r * r) * nn >= (s * s) * q - 6 * s * (r * r),
            q >= r * r,
            r >= 1,
            s == 65536,
    ;
}

} // verus!
