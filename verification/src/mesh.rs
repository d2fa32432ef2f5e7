//! The mesh: an ordered collection of polygons, with rigid rotation,
//! pinhole projection, back-face culling and the depth-ordered pipelines.
//!
//! The camera convention follows the stored geometry: a polygon faces the
//! camera when its normal's z component is negative, and culling keeps
//! exactly those polygons (or everything, when culling is disabled).
//! Projection translates a point by the negated eye position and scales x
//! and y by `focal.z / z`, centering on the focal point.

use vstd::prelude::*;
use rayon::iter::IntoParallelRefIterator;
use rayon::iter::ParallelIterator;
use crate::fixed::COORD_MAX;
use crate::fixed::NORMAL_MAX;
use crate::fixed::PROJ_MAX;
use crate::fixed::SCALE;
use crate::fixed::dtz;
use crate::fixed::lemma_dtz_exact;
use crate::fixed::lemma_mul_bound;
use crate::fixed::div_tz;
use crate::matrix::Mat3;
use crate::matrix::Trig;
use crate::matrix::apply_rs;
use crate::matrix::euler_s;
use crate::matrix::m3;
use crate::matrix::mat_in_range;
use crate::matrix::trig_ok;
use crate::polygon::Polygon;
use crate::polygon::Tri;
use crate::polygon::tri_in_range;
use crate::sort::depth_key;
use crate::sort::depth_key_s;
use crate::sort::sort_pairs;
use crate::sort::sort_pairs_s;
use crate::vec3::Vec3;
use crate::vec3::in_range;
use crate::vec3::v3;

verus! {

/// Why a rotation request was refused; the mesh is left unchanged.
#[derive(Clone, Copy, PartialEq, Eq, Structural, Debug)]
pub enum RotateError {
    /// A sine or cosine was larger than one world unit.
    InvalidRotation,
    /// A rotated coordinate left the supported coordinate range.
    OutOfRange,
}

/// Why a projection request was refused.
#[derive(Clone, Copy, PartialEq, Eq, Structural, Debug)]
pub enum ProjectError {
    /// A surviving vertex sits exactly on the camera plane.
    ZeroDepth,
    /// A projected coordinate left the supported screen range.
    OutOfView,
}

/// A polygon a mesh may store: vertices within the coordinate range and a
/// normal within the normal range.
pub open spec fn poly_wf(p: Polygon) -> bool {
    tri_in_range(p.points, COORD_MAX as int) && in_range(p.normal, NORMAL_MAX as int)
}

/// An ordered collection of polygons.
#[derive(Clone, Debug, PartialEq, Eq)]
pub struct Mesh {
    pub polygons: Vec<Polygon>,
}

/// Culling keeps a polygon facing the camera (normal z negative), or any
/// polygon when culling is disabled.
pub open spec fn keeps(p: Polygon, disable_culling: bool) -> bool {
    p.normal.z < 0 || disable_culling
}

/// The polygons surviving the cull, in their original order.
pub open spec fn culled_s(s: Seq<Polygon>, disable_culling: bool) -> Seq<Polygon> {
    s.filter(|p: Polygon| keeps(p, disable_culling))
}

/// The depth of a point in front of the eye.
pub open spec fn cam_z_s(pt: Vec3, origin: Vec3) -> int {
    pt.z - origin.z
}

/// The projected x coordinate of one point.
pub open spec fn proj_x_s(pt: Vec3, focal: Vec3, origin: Vec3) -> int {
    dtz((pt.x - origin.x) * focal.z, cam_z_s(pt, origin)) + focal.x
}

/// The projected y coordinate of one point.
pub open spec fn proj_y_s(pt: Vec3, focal: Vec3, origin: Vec3) -> int {
    dtz((pt.y - origin.y) * focal.z, cam_z_s(pt, origin)) + focal.y
}

/// The projected z coordinate of one point (always twice the focal depth).
pub open spec fn proj_z_s(pt: Vec3, focal: Vec3, origin: Vec3) -> int {
    dtz((pt.z - origin.z) * focal.z, cam_z_s(pt, origin)) + focal.z
}

/// One point projects cleanly: it is off the camera plane and its screen
/// coordinates stay within the supported range.
pub open spec fn pt_ok(pt: Vec3, focal: Vec3, origin: Vec3) -> bool {
    &&& cam_z_s(pt, origin) != 0
    &&& -PROJ_MAX <= proj_x_s(pt, focal, origin) <= PROJ_MAX
    &&& -PROJ_MAX <= proj_y_s(pt, focal, origin) <= PROJ_MAX
}

/// All three vertices of a polygon project cleanly.
pub open spec fn poly_ok(p: Polygon, focal: Vec3, origin: Vec3) -> bool {
    pt_ok(p.points.a, focal, origin) && pt_ok(p.points.b, focal, origin) && pt_ok(
        p.points.c,
        focal,
        origin,
    )
}

/// Every polygon surviving the cull projects cleanly.
pub open spec fn all_ok_s(s: Seq<Polygon>, focal: Vec3, origin: Vec3, disable_culling: bool) -> bool {
    forall|i: int|
        0 <= i < culled_s(s, disable_culling).len() ==> poly_ok(
            #[trigger] culled_s(s, disable_culling)[i],
            focal,
            origin,
        )
}

/// Some vertex of a polygon sits exactly on the camera plane.
pub open spec fn poly_zero(p: Polygon, origin: Vec3) -> bool {
    cam_z_s(p.points.a, origin) == 0 || cam_z_s(p.points.b, origin) == 0 || cam_z_s(
        p.points.c,
        origin,
    ) == 0
}

/// Some surviving polygon has a vertex on the camera plane.
pub open spec fn has_zero_s(s: Seq<Polygon>, origin: Vec3, disable_culling: bool) -> bool {
    exists|i: int|
        0 <= i < culled_s(s, disable_culling).len() && poly_zero(
            #[trigger] culled_s(s, disable_culling)[i],
            origin,
        )
}

/// The fully projected image of one point.
pub open spec fn proj_pt_s(pt: Vec3, focal: Vec3, origin: Vec3) -> Vec3 {
    Vec3 {
        x: proj_x_s(pt, focal, origin) as i64,
        y: proj_y_s(pt, focal, origin) as i64,
        z: proj_z_s(pt, focal, origin) as i64,
    }
}

/// The fully projected image of one polygon's vertices.
pub open spec fn proj_tri_s(p: Polygon, focal: Vec3, origin: Vec3) -> Tri {
    Tri {
        a: proj_pt_s(p.points.a, focal, origin),
        b: proj_pt_s(p.points.b, focal, origin),
        c: proj_pt_s(p.points.c, focal, origin),
    }
}

/// The hybrid image of one point: projected screen x and y, original
/// world z, so the rasterizer can interpolate true depth in screen space.
pub open spec fn hybrid_pt_s(pt: Vec3, focal: Vec3, origin: Vec3) -> Vec3 {
    Vec3 { x: proj_x_s(pt, focal, origin) as i64, y: proj_y_s(pt, focal, origin) as i64, z: pt.z }
}

/// The hybrid image of one polygon, keeping its original normal.
pub open spec fn hybrid_s(p: Polygon, focal: Vec3, origin: Vec3) -> Polygon {
    Polygon {
        points: Tri {
            a: hybrid_pt_s(p.points.a, focal, origin),
            b: hybrid_pt_s(p.points.b, focal, origin),
            c: hybrid_pt_s(p.points.c, focal, origin),
        },
        normal: p.normal,
    }
}

/// The visible pipeline: cull, project to hybrid screen polygons, and
/// (unless occlusion ordering is disabled) sort stably by ascending depth
/// key, so the nearest polygons come last.
pub open spec fn visible_s(
    s: Seq<Polygon>,
    focal: Vec3,
    origin: Vec3,
    disable_culling: bool,
    disable_occlusion: bool,
) -> Seq<Polygon> {
    let hybrids = culled_s(s, disable_culling).map_values(
        |p: Polygon| hybrid_s(p, focal, origin),
    );
    if disable_occlusion {
        hybrids
    } else {
        let tagged = hybrids.map_values(|p: Polygon| (depth_key_s(p) as i64, p));
        sort_pairs_s(tagged).map_values(|pr: (i64, Polygon)| pr.1)
    }
}

/// The executable matrix whose entries are the fixed-point combined Euler
/// rotation.
pub open spec fn euler_mat_s(tx: Trig, ty: Trig, tz: Trig) -> Mat3 {
    let e = euler_s(tx, ty, tz);
    Mat3 {
        m00: e.e00 as i64,
        m01: e.e01 as i64,
        m02: e.e02 as i64,
        m10: e.e10 as i64,
        m11: e.e11 as i64,
        m12: e.e12 as i64,
        m20: e.e20 as i64,
        m21: e.e21 as i64,
        m22: e.e22 as i64,
    }
}

/// The image of one point under the fixed-point matrix product.
pub open spec fn apply_pt_s(m: Mat3, pt: Vec3) -> Vec3 {
    Vec3 {
        x: apply_rs(m3(m), v3(pt)).x as i64,
        y: apply_rs(m3(m), v3(pt)).y as i64,
        z: apply_rs(m3(m), v3(pt)).z as i64,
    }
}

/// The image of one polygon under a rotation: all vertices and the cached
/// normal multiplied by the same matrix.
pub open spec fn transform_image_s(p: Polygon, m: Mat3) -> Polygon {
    Polygon {
        points: Tri {
            a: apply_pt_s(m, p.points.a),
            b: apply_pt_s(m, p.points.b),
            c: apply_pt_s(m, p.points.c),
        },
        normal: apply_pt_s(m, p.normal),
    }
}

/// Relies on rayon's parallel iterator: `par_iter().map(f).collect()` into
/// a `Vec` yields exactly the images of the elements, in their original
/// order.  The closure only calls the verified `Polygon::transform`.
#[verifier::external_body]
fn par_transform(polys: &Vec<Polygon>, m: &Mat3) -> (r: Vec<Polygon>)
    requires
        mat_in_range(*m, 2 * SCALE as int),
        forall|i: int|
            0 <= i < polys@.len() ==> tri_in_range((#[trigger] polys@[i]).points, 0x4000_0000)
                && in_range(polys@[i].normal, 0x4000_0000),
    ensures
        r@.len() == polys@.len(),
        forall|i: int|
            0 <= i < polys@.len() ==> #[trigger] r@[i] == transform_image_s(polys@[i], *m),
{
    polys.par_iter().map(|p| p.transform(m)).collect()
}

impl Mesh {
    /// Every stored polygon is within the supported ranges.
    pub open spec fn wf(self) -> bool {
        forall|i: int| 0 <= i < self.polygons@.len() ==> poly_wf(#[trigger] self.polygons@[i])
    }

    /// Wrap a list of polygons as a mesh, refusing any whose coordinates
    /// are outside the supported ranges.
    pub fn from_polygons(polygons: Vec<Polygon>) -> (r: Option<Mesh>)
        ensures
            match r {
                Some(m) => m.polygons == polygons && m.wf(),
                None => !(forall|i: int|
                    0 <= i < polygons@.len() ==> poly_wf(#[trigger] polygons@[i])),
            },
    {
        let n = polygons.len();
        for i in 0..n
            invariant
                n == polygons@.len(),
                forall|j: int| 0 <= j < i ==> poly_wf(#[trigger] polygons@[j]),
        {
            let p = &polygons[i];
            let ok = p.points.a.x >= -COORD_MAX && p.points.a.x <= COORD_MAX && p.points.a.y
                >= -COORD_MAX && p.points.a.y <= COORD_MAX && p.points.a.z >= -COORD_MAX
                && p.points.a.z <= COORD_MAX && p.points.b.x >= -COORD_MAX && p.points.b.x
                <= COORD_MAX && p.points.b.y >= -COORD_MAX && p.points.b.y <= COORD_MAX
                && p.points.b.z >= -COORD_MAX && p.points.b.z <= COORD_MAX && p.points.c.x
                >= -COORD_MAX && p.points.c.x <= COORD_MAX && p.points.c.y >= -COORD_MAX
                && p.points.c.y <= COORD_MAX && p.points.c.z >= -COORD_MAX && p.points.c.z
                <= COORD_MAX && p.normal.x >= -NORMAL_MAX && p.normal.x <= NORMAL_MAX && p.normal.y
                >= -NORMAL_MAX && p.normal.y <= NORMAL_MAX && p.normal.z >= -NORMAL_MAX
                && p.normal.z <= NORMAL_MAX;
            if !ok {
                return None;
            }
        }
        Some(Mesh { polygons })
    }

    /// Rotate every polygon in place by the combined Euler rotation built
    /// from the three sine/cosine pairs (x axis applied first, then y,
    /// then z).  On any refusal the mesh is unchanged.
    pub fn rotate_in_place(&mut self, tx: Trig, ty: Trig, tz: Trig) -> (r: Result<
        (),
        RotateError,
    >)
        requires
            old(self).wf(),
        ensures
            final(self).wf(),
            match r {
                Ok(()) => {
                    &&& trig_ok(tx) && trig_ok(ty) && trig_ok(tz)
                    &&& final(self).polygons@.len() == old(self).polygons@.len()
                    &&& forall|i: int|
                        0 <= i < old(self).polygons@.len()
                            ==> #[trigger] final(self).polygons@[i] == transform_image_s(
                            old(self).polygons@[i],
                            euler_mat_s(tx, ty, tz),
                        )
                },
                Err(RotateError::InvalidRotation) => *final(self) == *old(self) && !(trig_ok(tx)
                    && trig_ok(ty) && trig_ok(tz)),
                Err(RotateError::OutOfRange) => {
                    &&& *final(self) == *old(self)
                    &&& trig_ok(tx) && trig_ok(ty) && trig_ok(tz)
                    &&& !(forall|i: int|
                        0 <= i < old(self).polygons@.len() ==> poly_wf(
                            #[trigger] transform_image_s(
                                old(self).polygons@[i],
                                euler_mat_s(tx, ty, tz),
                            ),
                        ))
                },
            },
    {
        if !(tx.sin >= -SCALE && tx.sin <= SCALE && tx.cos >= -SCALE && tx.cos <= SCALE && ty.sin
            >= -SCALE && ty.sin <= SCALE && ty.cos >= -SCALE && ty.cos <= SCALE && tz.sin
            >= -SCALE && tz.sin <= SCALE && tz.cos >= -SCALE && tz.cos <= SCALE) {
            return Err(RotateError::InvalidRotation);
        }
        let m = Mat3::from_euler(tx, ty, tz);
        assert(m == euler_mat_s(tx, ty, tz));
        let cand = par_transform(&self.polygons, &m);
        let n = cand.len();
        for i in 0..n
            invariant
                *self == *old(self),
                old(self).wf(),
                trig_ok(tx) && trig_ok(ty) && trig_ok(tz),
                n == cand@.len(),
                cand@.len() == self.polygons@.len(),
                forall|j: int|
                    0 <= j < cand@.len() ==> #[trigger] cand@[j] == transform_image_s(
                        self.polygons@[j],
                        m,
                    ),
                m == euler_mat_s(tx, ty, tz),
                forall|j: int| 0 <= j < i ==> poly_wf(#[trigger] cand@[j]),
                self.wf(),
        {
            let p = &cand[i];
            let ok = p.points.a.x >= -COORD_MAX && p.points.a.x <= COORD_MAX && p.points.a.y
                >= -COORD_MAX && p.points.a.y <= COORD_MAX && p.points.a.z >= -COORD_MAX
                && p.points.a.z <= COORD_MAX && p.points.b.x >= -COORD_MAX && p.points.b.x
                <= COORD_MAX && p.points.b.y >= -COORD_MAX && p.points.b.y <= COORD_MAX
                && p.points.b.z >= -COORD_MAX && p.points.b.z <= COORD_MAX && p.points.c.x
                >= -COORD_MAX && p.points.c.x <= COORD_MAX && p.points.c.y >= -COORD_MAX
                && p.points.c.y <= COORD_MAX && p.points.c.z >= -COORD_MAX && p.points.c.z
                <= COORD_MAX && p.normal.x >= -NORMAL_MAX && p.normal.x <= NORMAL_MAX && p.normal.y
                >= -NORMAL_MAX && p.normal.y <= NORMAL_MAX && p.normal.z >= -NORMAL_MAX
                && p.normal.z <= NORMAL_MAX;
            if !ok {
                proof {
                    assert(!poly_wf(cand@[i as int]));
                    assert(cand@[i as int] == transform_image_s(
                        self.polygons@[i as int],
                        euler_mat_s(tx, ty, tz),
                    ));
                }
                return Err(RotateError::OutOfRange);
            }
        }
        self.polygons = cand;
        Ok(())
    }

    /// Rotate a copy of the mesh by the combined Euler rotation and return
    /// the flattened list of transformed vertices; the mesh is unchanged.
    pub fn rotate(&self, tx: Trig, ty: Trig, tz: Trig) -> (r: Result<Vec<Vec3>, RotateError>)
        requires
            self.wf(),
        ensures
            match r {
                Ok(out) => {
                    &&& trig_ok(tx) && trig_ok(ty) && trig_ok(tz)
                    &&& out@.len() == 3 * self.polygons@.len()
                    &&& forall|i: int|
                        0 <= i < self.polygons@.len() ==> {
                            let img = transform_image_s(
                                #[trigger] self.polygons@[i],
                                euler_mat_s(tx, ty, tz),
                            );
                            out@[3 * i] == img.points.a && out@[3 * i + 1] == img.points.b
                                && out@[3 * i + 2] == img.points.c
                        }
                },
                Err(e) => e == RotateError::InvalidRotation && !(trig_ok(tx) && trig_ok(ty)
                    && trig_ok(tz)),
            },
    {
        if !(tx.sin >= -SCALE && tx.sin <= SCALE && tx.cos >= -SCALE && tx.cos <= SCALE && ty.sin
            >= -SCALE && ty.sin <= SCALE && ty.cos >= -SCALE && ty.cos <= SCALE && tz.sin
            >= -SCALE && tz.sin <= SCALE && tz.cos >= -SCALE && tz.cos <= SCALE) {
            return Err(RotateError::InvalidRotation);
        }
        let m = Mat3::from_euler(tx, ty, tz);
        assert(m == euler_mat_s(tx, ty, tz));
        let cand = par_transform(&self.polygons, &m);
        let mut out: Vec<Vec3> = Vec::new();
        let n = cand.len();
        for i in 0..n
            invariant
                n == cand@.len(),
                cand@.len() == self.polygons@.len(),
                forall|j: int|
                    0 <= j < cand@.len() ==> #[trigger] cand@[j] == transform_image_s(
                        self.polygons@[j],
                        m,
                    ),
                m == euler_mat_s(tx, ty, tz),
                out@.len() == 3 * i,
                forall|j: int|
                    0 <= j < i ==> {
                        let img = #[trigger] cand@[j];
                        out@[3 * j] == img.points.a && out@[3 * j + 1] == img.points.b && out@[3
                            * j + 2] == img.points.c
                    },
        {
            let p = &cand[i];
            out.push(p.points.a);
            out.push(p.points.b);
            out.push(p.points.c);
        }
        proof {
            assert forall|i: int| 0 <= i < self.polygons@.len() implies {
                let img = transform_image_s(
                    #[trigger] self.polygons@[i],
                    euler_mat_s(tx, ty, tz),
                );
                out@[3 * i] == img.points.a && out@[3 * i + 1] == img.points.b && out@[3 * i + 2]
                    == img.points.c
            } by {
                assert(cand@[i] == transform_image_s(self.polygons@[i], m));
            }
        }
        Ok(out)
    }

    /// Cull and fully project the mesh through the pinhole camera: each
    /// surviving polygon's vertices are translated by the negated eye
    /// position and scaled by `focal.z / z`, centered on the focal point.
    pub fn project(&self, focal: Vec3, origin: Vec3, disable_culling: bool) -> (r: Result<
        Vec<Tri>,
        ProjectError,
    >)
        requires
            self.wf(),
            in_range(focal, COORD_MAX as int),
            in_range(origin, COORD_MAX as int),
        ensures
            match r {
                Ok(out) => {
                    &&& all_ok_s(self.polygons@, focal, origin, disable_culling)
                    &&& out@ == culled_s(self.polygons@, disable_culling).map_values(
                        |p: Polygon| proj_tri_s(p, focal, origin),
                    )
                },
                Err(e) => {
                    &&& !all_ok_s(self.polygons@, focal, origin, disable_culling)
                    &&& (e == ProjectError::ZeroDepth <==> has_zero_s(
                        self.polygons@,
                        origin,
                        disable_culling,
                    ))
                },
            },
    {
        let culled = self.cull(disable_culling);
        let flags = scan_flags(&culled, focal, origin);
        if flags.0 {
            return Err(ProjectError::ZeroDepth);
        }
        if flags.1 {
            return Err(ProjectError::OutOfView);
        }
        let mut out: Vec<Tri> = Vec::new();
        let n = culled.len();
        let ghost cseq = culled@;
        for i in 0..n
            invariant
                n == cseq.len(),
                culled@ == cseq,
                cseq == culled_s(self.polygons@, disable_culling),
                forall|j: int| 0 <= j < cseq.len() ==> poly_wf(#[trigger] cseq[j]),
                forall|j: int| 0 <= j < cseq.len() ==> poly_ok(#[trigger] cseq[j], focal, origin),
                in_range(focal, COORD_MAX as int),
                in_range(origin, COORD_MAX as int),
                out@ == cseq.subrange(0, i as int).map_values(
                    |p: Polygon| proj_tri_s(p, focal, origin),
                ),
        {
            let p = &culled[i];
            let t = Tri {
                a: proj_point(p.points.a, focal, origin),
                b: proj_point(p.points.b, focal, origin),
                c: proj_point(p.points.c, focal, origin),
            };
            out.push(t);
            proof {
                assert(cseq.subrange(0, i as int + 1).map_values(
                    |p: Polygon| proj_tri_s(p, focal, origin),
                ) =~= cseq.subrange(0, i as int).map_values(
                    |p: Polygon| proj_tri_s(p, focal, origin),
                ).push(proj_tri_s(cseq[i as int], focal, origin)));
            }
        }
        proof {
            assert(cseq.subrange(0, n as int) =~= cseq);
        }
        Ok(out)
    }

    /// The culled-projected-ordered pipeline behind shading and
    /// rasterization: surviving polygons as hybrid screen polygons
    /// (projected x and y, original z, original normal), stably ordered by
    /// ascending depth key unless occlusion ordering is disabled.
    pub fn raw_visible(
        &self,
        focal: Vec3,
        origin: Vec3,
        disable_culling: bool,
        disable_occlusion: bool,
    ) -> (r: Result<Vec<Polygon>, ProjectError>)
        requires
            self.wf(),
            in_range(focal, COORD_MAX as int),
            in_range(origin, COORD_MAX as int),
        ensures
            match r {
                Ok(out) => {
                    &&& all_ok_s(self.polygons@, focal, origin, disable_culling)
                    &&& out@ == visible_s(
                        self.polygons@,
                        focal,
                        origin,
                        disable_culling,
                        disable_occlusion,
                    )
                    &&& forall|i: int|
                        0 <= i < out@.len() ==> tri_in_range(
                            (#[trigger] out@[i]).points,
                            PROJ_MAX as int,
                        ) && in_range(out@[i].normal, NORMAL_MAX as int) && keeps(
                            out@[i],
                            disable_culling,
                        )
                },
                Err(e) => {
                    &&& !all_ok_s(self.polygons@, focal, origin, disable_culling)
                    &&& (e == ProjectError::ZeroDepth <==> has_zero_s(
                        self.polygons@,
                        origin,
                        disable_culling,
                    ))
                },
            },
    {
        let culled = self.cull(disable_culling);
        let flags = scan_flags(&culled, focal, origin);
        if flags.0 {
            return Err(ProjectError::ZeroDepth);
        }
        if flags.1 {
            return Err(ProjectError::OutOfView);
        }
        let mut hybrids: Vec<Polygon> = Vec::new();
        let n = culled.len();
        let ghost cseq = culled@;
        for i in 0..n
            invariant
                n == cseq.len(),
                culled@ == cseq,
                cseq == culled_s(self.polygons@, disable_culling),
                forall|j: int| 0 <= j < cseq.len() ==> poly_wf(#[trigger] cseq[j]),
                forall|j: int| 0 <= j < cseq.len() ==> poly_ok(#[trigger] cseq[j], focal, origin),
                in_range(focal, COORD_MAX as int),
                in_range(origin, COORD_MAX as int),
                forall|j: int| 0 <= j < cseq.len() ==> keeps(#[trigger] cseq[j], disable_culling),
                hybrids@ == cseq.subrange(0, i as int).map_values(
                    |p: Polygon| hybrid_s(p, focal, origin),
                ),
                forall|j: int|
                    0 <= j < hybrids@.len() ==> tri_in_range(
                        (#[trigger] hybrids@[j]).points,
                        PROJ_MAX as int,
                    ) && in_range(hybrids@[j].normal, NORMAL_MAX as int) && keeps(
                        hybrids@[j],
                        disable_culling,
                    ),
        {
            let p = &culled[i];
            let h = Polygon {
                points: Tri {
                    a: hybrid_point(p.points.a, focal, origin),
                    b: hybrid_point(p.points.b, focal, origin),
                    c: hybrid_point(p.points.c, focal, origin),
                },
                normal: p.normal,
            };
            hybrids.push(h);
            proof {
                assert(cseq.subrange(0, i as int + 1).map_values(
                    |p: Polygon| hybrid_s(p, focal, origin),
                ) =~= cseq.subrange(0, i as int).map_values(
                    |p: Polygon| hybrid_s(p, focal, origin),
                ).push(hybrid_s(cseq[i as int], focal, origin)));
            }
        }
        proof {
            assert(cseq.subrange(0, n as int) =~= cseq);
        }
        if disable_occlusion {
            return Ok(hybrids);
        }
        let ghost hseq = hybrids@;
        let mut tagged: Vec<(i64, Polygon)> = Vec::new();
        let hn = hybrids.len();
        for i in 0..hn
            invariant
                hn == hseq.len(),
                hybrids@ == hseq,
                forall|j: int|
                    0 <= j < hseq.len() ==> tri_in_range(
                        (#[trigger] hseq[j]).points,
                        PROJ_MAX as int,
                    ) && in_range(hseq[j].normal, NORMAL_MAX as int),
                tagged@ == hseq.subrange(0, i as int).map_values(
                    |p: Polygon| (depth_key_s(p) as i64, p),
                ),
        {
            let p = hybrids[i];
            let k = depth_key(&p);
            tagged.push((k, p));
            proof {
                assert(hseq.subrange(0, i as int + 1).map_values(
                    |p: Polygon| (depth_key_s(p) as i64, p),
                ) =~= hseq.subrange(0, i as int).map_values(
                    |p: Polygon| (depth_key_s(p) as i64, p),
                ).push((depth_key_s(hseq[i as int]) as i64, hseq[i as int])));
            }
        }
        proof {
            assert(hseq.subrange(0, hn as int) =~= hseq);
        }
        let sorted = sort_pairs(tagged);
        let mut out: Vec<Polygon> = Vec::new();
        let ghost sseq = sorted@;
        let sn = sorted.len();
        for i in 0..sn
            invariant
                sn == sseq.len(),
                sorted@ == sseq,
                out@ == sseq.subrange(0, i as int).map_values(|pr: (i64, Polygon)| pr.1),
        {
            out.push(sorted[i].1);
            proof {
                assert(sseq.subrange(0, i as int + 1).map_values(|pr: (i64, Polygon)| pr.1)
                    =~= sseq.subrange(0, i as int).map_values(|pr: (i64, Polygon)| pr.1).push(
                    sseq[i as int].1,
                ));
            }
        }
        proof {
            assert(sseq.subrange(0, sn as int) =~= sseq);
            lemma_visible_bounds(self.polygons@, focal, origin, disable_culling, hseq, sseq);
            assert(forall|i: int| 0 <= i < out@.len() ==> #[trigger] out@[i] == sseq[i].1);
        }
        Ok(out)
    }

    /// As the visible pipeline, but each polygon's vertices are paired with
    /// its flat shading intensity: the magnitude of the normal's z
    /// component, the cosine of the angle to the view axis.
    pub fn shade(
        &self,
        focal: Vec3,
        origin: Vec3,
        disable_culling: bool,
        disable_occlusion: bool,
    ) -> (r: Result<Vec<(Tri, i64)>, ProjectError>)
        requires
            self.wf(),
            in_range(focal, COORD_MAX as int),
            in_range(origin, COORD_MAX as int),
        ensures
            match r {
                Ok(out) => {
                    &&& all_ok_s(self.polygons@, focal, origin, disable_culling)
                    &&& {
                        let vis = visible_s(
                            self.polygons@,
                            focal,
                            origin,
                            disable_culling,
                            disable_occlusion,
                        );
                        &&& out@.len() == vis.len()
                        &&& forall|i: int|
                            0 <= i < vis.len() ==> (#[trigger] out@[i]).0 == vis[i].points
                                && out@[i].1 == intensity_s(vis[i])
                    }
                },
                Err(e) => {
                    &&& !all_ok_s(self.polygons@, focal, origin, disable_culling)
                    &&& (e == ProjectError::ZeroDepth <==> has_zero_s(
                        self.polygons@,
                        origin,
                        disable_culling,
                    ))
                },
            },
    {
        let vis = match self.raw_visible(focal, origin, disable_culling, disable_occlusion) {
            Ok(v) => v,
            Err(e) => {
                return Err(e);
            },
        };
        let mut out: Vec<(Tri, i64)> = Vec::new();
        let n = vis.len();
        let ghost vseq = vis@;
        for i in 0..n
            invariant
                n == vseq.len(),
                vis@ == vseq,
                forall|j: int|
                    0 <= j < vseq.len() ==> in_range((#[trigger] vseq[j]).normal, NORMAL_MAX as int),
                out@.len() == i,
                forall|j: int|
                    0 <= j < i ==> (#[trigger] out@[j]).0 == vseq[j].points && out@[j].1
                        == intensity_s(vseq[j]),
        {
            let p = &vis[i];
            let inten = if p.normal.z < 0 {
                -p.normal.z
            } else {
                p.normal.z
            };
            out.push((p.points, inten));
        }
        Ok(out)
    }

    /// The polygons surviving the cull, in order.
    fn cull(&self, disable_culling: bool) -> (r: Vec<Polygon>)
        requires
            self.wf(),
        ensures
            r@ == culled_s(self.polygons@, disable_culling),
            forall|j: int| 0 <= j < r@.len() ==> poly_wf(#[trigger] r@[j]),
            forall|j: int| 0 <= j < r@.len() ==> keeps(#[trigger] r@[j], disable_culling),
    {
        let mut culled: Vec<Polygon> = Vec::new();
        let n = self.polygons.len();
        assert(self.polygons@.subrange(0, 0) =~= Seq::empty());
        assert(culled@ =~= culled_s(self.polygons@.subrange(0, 0), disable_culling));
        for i in 0..n
            invariant
                n == self.polygons@.len(),
                self.wf(),
                culled@ == culled_s(self.polygons@.subrange(0, i as int), disable_culling),
                forall|j: int| 0 <= j < culled@.len() ==> poly_wf(#[trigger] culled@[j]),
                forall|j: int| 0 <= j < culled@.len() ==> keeps(#[trigger] culled@[j], disable_culling),
        {
            let p = &self.polygons[i];
            let ghost pre = self.polygons@.subrange(0, i as int);
            let ghost cur = self.polygons@.subrange(0, i as int + 1);
            if p.normal.z < 0 || disable_culling {
                culled.push(*p);
            }
            proof {
                reveal_with_fuel(Seq::filter, 2);
                assert(cur.drop_last() =~= pre);
                assert(cur.last() == self.polygons@[i as int]);
                assert(culled@ == culled_s(cur, disable_culling));
            }
        }
        proof {
            assert(self.polygons@.subrange(0, n as int) =~= self.polygons@);
        }
        culled
    }
}

/// The flat shading intensity of a screen polygon: the magnitude of its
/// normal's z component.
pub open spec fn intensity_s(p: Polygon) -> int {
    if p.normal.z < 0 {
        -p.normal.z
    } else {
        p.normal.z as int
    }
}

/// The elements of the visible pipeline keep the screen-range bounds of
/// the hybrid polygons they permute.
proof fn lemma_visible_bounds(
    s: Seq<Polygon>,
    focal: Vec3,
    origin: Vec3,
    disable_culling: bool,
    hseq: Seq<Polygon>,
    sseq: Seq<(i64, Polygon)>,
)
    requires
        hseq == culled_s(s, disable_culling).map_values(|p: Polygon| hybrid_s(p, focal, origin)),
        sseq == sort_pairs_s(hseq.map_values(|p: Polygon| (depth_key_s(p) as i64, p))),
        forall|j: int|
            0 <= j < hseq.len() ==> tri_in_range((#[trigger] hseq[j]).points, PROJ_MAX as int)
                && in_range(hseq[j].normal, NORMAL_MAX as int) && keeps(hseq[j], disable_culling),
    ensures
        forall|j: int|
            0 <= j < sseq.len() ==> tri_in_range((#[trigger] sseq[j].1).points, PROJ_MAX as int)
                && in_range(sseq[j].1.normal, NORMAL_MAX as int) && keeps(
                sseq[j].1,
                disable_culling,
            ),
{
    broadcast use vstd::seq_lib::group_to_multiset_ensures;

    let tagged = hseq.map_values(|p: Polygon| (depth_key_s(p) as i64, p));
    crate::sort::lemma_sort_pairs_multiset(tagged);
    assert forall|j: int| 0 <= j < sseq.len() implies tri_in_range(
        (#[trigger] sseq[j].1).points,
        PROJ_MAX as int,
    ) && in_range(sseq[j].1.normal, NORMAL_MAX as int) && keeps(sseq[j].1, disable_culling) by {
        assert(sseq.to_multiset().count(sseq[j]) > 0);
        assert(tagged.to_multiset().count(sseq[j]) > 0);
        assert(tagged.contains(sseq[j]));
        let k = choose|k: int| 0 <= k < tagged.len() && tagged[k] == sseq[j];
        assert(tagged[k].1 == hseq[k]);
    }
}

/// Scan the culled polygons once: the first flag reports a vertex exactly
/// on the camera plane, the second a projected coordinate out of range.
fn scan_flags(culled: &Vec<Polygon>, focal: Vec3, origin: Vec3) -> (r: (bool, bool))
    requires
        forall|j: int| 0 <= j < culled@.len() ==> poly_wf(#[trigger] culled@[j]),
        in_range(focal, COORD_MAX as int),
        in_range(origin, COORD_MAX as int),
    ensures
        r.0 == exists|i: int| 0 <= i < culled@.len() && poly_zero(#[trigger] culled@[i], origin),
        !r.0 && !r.1 ==> forall|i: int|
            0 <= i < culled@.len() ==> poly_ok(#[trigger] culled@[i], focal, origin),
        r.1 && !r.0 ==> !(forall|i: int|
            0 <= i < culled@.len() ==> poly_ok(#[trigger] culled@[i], focal, origin)),
{
    let mut zero = false;
    let mut oov = false;
    let n = culled.len();
    for i in 0..n
        invariant
            n == culled@.len(),
            forall|j: int| 0 <= j < culled@.len() ==> poly_wf(#[trigger] culled@[j]),
            in_range(focal, COORD_MAX as int),
            in_range(origin, COORD_MAX as int),
            zero == exists|j: int| 0 <= j < i && poly_zero(#[trigger] culled@[j], origin),
            !zero && !oov ==> forall|j: int|
                0 <= j < i ==> poly_ok(#[trigger] culled@[j], focal, origin),
            oov ==> !(forall|j: int|
                0 <= j < culled@.len() ==> poly_ok(#[trigger] culled@[j], focal, origin)),
    {
        let p = &culled[i];
        let za = pt_zero(p.points.a, origin);
        let zb = pt_zero(p.points.b, origin);
        let zc = pt_zero(p.points.c, origin);
        if za || zb || zc {
            zero = true;
        } else {
            let oa = pt_oov(p.points.a, focal, origin);
            let ob = pt_oov(p.points.b, focal, origin);
            let oc = pt_oov(p.points.c, focal, origin);
            if oa || ob || oc {
                oov = true;
            }
        }
    }
    (zero, oov)
}

/// Whether one vertex sits exactly on the camera plane.
fn pt_zero(pt: Vec3, origin: Vec3) -> (r: bool)
    requires
        in_range(pt, COORD_MAX as int),
        in_range(origin, COORD_MAX as int),
    ensures
        r == (cam_z_s(pt, origin) == 0),
{
    pt.z - origin.z == 0
}

/// Whether one off-plane vertex projects outside the supported range.
fn pt_oov(pt: Vec3, focal: Vec3, origin: Vec3) -> (r: bool)
    requires
        in_range(pt, COORD_MAX as int),
        in_range(focal, COORD_MAX as int),
        in_range(origin, COORD_MAX as int),
        cam_z_s(pt, origin) != 0,
    ensures
        r == !(-PROJ_MAX <= proj_x_s(pt, focal, origin) <= PROJ_MAX && -PROJ_MAX <= proj_y_s(
            pt,
            focal,
            origin,
        ) <= PROJ_MAX),
{
    let tz = (pt.z - origin.z) as i128;
    proof {
        lemma_mul_bound(pt.x - origin.x, focal.z as int, 0x400_0000, 0x200_0000);
        lemma_mul_bound(pt.y - origin.y, focal.z as int, 0x400_0000, 0x200_0000);
    }
    let px = div_tz(((pt.x - origin.x) as i128) * (focal.z as i128), tz) + focal.x as i128;
    let py = div_tz(((pt.y - origin.y) as i128) * (focal.z as i128), tz) + focal.y as i128;
    proof {
        lemma_dtz_mag((pt.x - origin.x) * focal.z, cam_z_s(pt, origin));
        lemma_dtz_mag((pt.y - origin.y) * focal.z, cam_z_s(pt, origin));
    }
    !(px >= -(PROJ_MAX as i128) && px <= PROJ_MAX as i128 && py >= -(PROJ_MAX as i128) && py
        <= PROJ_MAX as i128)
}

/// The magnitude of a toward-zero quotient never exceeds the numerator's.
pub proof fn lemma_dtz_mag(n: int, d: int)
    requires
        d != 0,
    ensures
        -n <= dtz(n, d) <= n || n <= dtz(n, d) <= -n,
{
    if d > 0 {
        crate::fixed::lemma_qtz_mag(n, d);
        if n >= 0 {
            lemma_qtz_cancel_help(n, d);
        } else {
            lemma_qtz_cancel_help_neg(n, d);
        }
    } else {
        crate::fixed::lemma_qtz_mag(-n, -d);
        if -n >= 0 {
            lemma_qtz_cancel_help(-n, -d);
        } else {
            lemma_qtz_cancel_help_neg(-n, -d);
        }
    }
}

proof fn lemma_qtz_cancel_help(n: int, d: int)
    requires
        d >= 1,
        n >= 0,
    ensures
        0 <= crate::fixed::qtz(n, d) <= n,
{
    crate::fixed::lemma_qtz_mag(n, d);
    let q = crate::fixed::qtz(n, d);
    assert(q <= n) by (nonlinear_arith)
        requires
            d >= 1,
            q >= 0,
            d * q <= n,
    ;
}

proof fn lemma_qtz_cancel_help_neg(n: int, d: int)
    requires
        d >= 1,
        n < 0,
    ensures
        n <= crate::fixed::qtz(n, d) <= 0,
{
    crate::fixed::lemma_qtz_mag(n, d);
    let q = crate::fixed::qtz(n, d);
    assert(n <= q) by (nonlinear_arith)
        requires
            d >= 1,
            q <= 0,
            n <= d * q,
    ;
}

/// Project one vertex fully, all three components.
fn proj_point(pt: Vec3, focal: Vec3, origin: Vec3) -> (r: Vec3)
    requires
        in_range(pt, COORD_MAX as int),
        in_range(focal, COORD_MAX as int),
        in_range(origin, COORD_MAX as int),
        pt_ok(pt, focal, origin),
    ensures
        r == proj_pt_s(pt, focal, origin),
{
    let tz = (pt.z - origin.z) as i128;
    proof {
        lemma_mul_bound(pt.x - origin.x, focal.z as int, 0x400_0000, 0x200_0000);
        lemma_mul_bound(pt.y - origin.y, focal.z as int, 0x400_0000, 0x200_0000);
        lemma_mul_bound(pt.z - origin.z, focal.z as int, 0x400_0000, 0x200_0000);
        lemma_dtz_exact(focal.z as int, cam_z_s(pt, origin));
    }
    let px = div_tz(((pt.x - origin.x) as i128) * (focal.z as i128), tz) + focal.x as i128;
    let py = div_tz(((pt.y - origin.y) as i128) * (focal.z as i128), tz) + focal.y as i128;
    assert((pt.z - origin.z) as i128 as int * (focal.z as i128) as int == (focal.z as int) * (
    cam_z_s(pt, origin))) by (nonlinear_arith)
        requires
            (pt.z - origin.z) as i128 as int == cam_z_s(pt, origin),
            (focal.z as i128) as int == focal.z as int,
    ;
    let pz = div_tz(((pt.z - origin.z) as i128) * (focal.z as i128), tz) + focal.z as i128;
    Vec3 { x: px as i64, y: py as i64, z: pz as i64 }
}

/// Project one vertex's x and y, keeping its original z.
fn hybrid_point(pt: Vec3, focal: Vec3, origin: Vec3) -> (r: Vec3)
    requires
        in_range(pt, COORD_MAX as int),
        in_range(focal, COORD_MAX as int),
        in_range(origin, COORD_MAX as int),
        pt_ok(pt, focal, origin),
    ensures
        r == hybrid_pt_s(pt, focal, origin),
{
    let tz = (pt.z - origin.z) as i128;
    proof {
        lemma_mul_bound(pt.x - origin.x, focal.z as int, 0x400_0000, 0x200_0000);
        lemma_mul_bound(pt.y - origin.y, focal.z as int, 0x400_0000, 0x200_0000);
    }
    let px = div_tz(((pt.x - origin.x) as i128) * (focal.z as i128), tz) + focal.x as i128;
    let py = div_tz(((pt.y - origin.y) as i128) * (focal.z as i128), tz) + focal.y as i128;
    Vec3 { x: px as i64, y: py as i64, z: pt.z }
}

} // verus!
