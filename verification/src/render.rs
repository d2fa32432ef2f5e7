//! The renderer: a mesh, a camera, and the z-buffered rasterizer.
//!
//! Rasterization walks every pixel of the output grid.  A pixel's center is
//! mapped back to a world-space sample point; each visible polygon that
//! contains the point (by the sign test on its three screen-space edge
//! cross products) offers its plane-interpolated depth there, and the
//! nearest depth wins the pixel, which then carries that polygon's flat
//! shading intensity.  Pixels no polygon covers keep intensity zero.

use vstd::prelude::*;
use crate::fixed::COORD_MAX;
use crate::fixed::NORMAL_MAX;
use crate::fixed::PROJ_MAX;
use crate::fixed::SCALE;
use crate::fixed::dtz;
use crate::fixed::lemma_mul_bound;
use crate::fixed::qtz;
use crate::fixed::div_tz;
use crate::matrix::Trig;
use crate::mesh::Mesh;
use crate::mesh::ProjectError;
use crate::mesh::RotateError;
use crate::mesh::all_ok_s;
use crate::mesh::has_zero_s;
use crate::mesh::intensity_s;
use crate::mesh::visible_s;
use crate::parse::LoadError;
use crate::polygon::Polygon;
use crate::polygon::Tri;
use crate::polygon::tri_in_range;
use crate::vec3::Vec3;
use crate::vec3::in_range;

verus! {

/// Why a renderer could not be built.
#[derive(Clone, Copy, PartialEq, Eq, Structural, Debug)]
pub enum RenderError {
    /// The viewport or camera configuration is out of the supported range.
    BadConfig,
    /// The mesh description was rejected.
    Load(LoadError),
}

/// The world x (or y) coordinate of the center of pixel `p` on an axis of
/// `dim` pixels spanning world `[-range, range]`.
pub open spec fn sample_s(p: int, dim: int, range: int) -> int {
    qtz((2 * p - dim) * range, dim)
}

/// Twice the signed area of the triangle `(a, b, p)` in screen space.
pub open spec fn edge_s(ax: int, ay: int, bx: int, by: int, px: int, py: int) -> int {
    (bx - ax) * (py - ay) - (by - ay) * (px - ax)
}

/// Twice the signed screen-space area of a triangle.
pub open spec fn area2_s(t: Tri) -> int {
    edge_s(t.a.x as int, t.a.y as int, t.b.x as int, t.b.y as int, t.c.x as int, t.c.y as int)
}

/// The standard sign test: the point is inside (or on the border of) the
/// triangle when all three edge cross products share a sign.
pub open spec fn contains_s(t: Tri, wx: int, wy: int) -> bool {
    let e0 = edge_s(t.a.x as int, t.a.y as int, t.b.x as int, t.b.y as int, wx, wy);
    let e1 = edge_s(t.b.x as int, t.b.y as int, t.c.x as int, t.c.y as int, wx, wy);
    let e2 = edge_s(t.c.x as int, t.c.y as int, t.a.x as int, t.a.y as int, wx, wy);
    (e0 >= 0 && e1 >= 0 && e2 >= 0) || (e0 <= 0 && e1 <= 0 && e2 <= 0)
}

/// The x component of the plane normal of a hybrid triangle.
pub open spec fn plane_nx_s(t: Tri) -> int {
    (t.b.y - t.a.y) * (t.c.z - t.a.z) - (t.b.z - t.a.z) * (t.c.y - t.a.y)
}

/// The y component of the plane normal of a hybrid triangle.
pub open spec fn plane_ny_s(t: Tri) -> int {
    (t.b.z - t.a.z) * (t.c.x - t.a.x) - (t.b.x - t.a.x) * (t.c.z - t.a.z)
}

/// The interpolated depth of the triangle's plane at a sample point: the z
/// for which the point lies on the plane of the three hybrid vertices.
/// Meaningful only when the screen area is nonzero.
pub open spec fn depth_s(t: Tri, wx: int, wy: int) -> int {
    t.a.z - dtz(plane_nx_s(t) * (wx - t.a.x) + plane_ny_s(t) * (wy - t.a.y), area2_s(t))
}

/// The depth sentinel: deeper than every representable depth.
pub open spec fn far_s() -> int {
    0x7fff_ffff_ffff_ffff_ffff_ffff_ffff_ffff
}

/// The z-buffer state of one pixel after the first `n` polygons: the
/// nearest depth seen so far (the sentinel if none) and the intensity of
/// the polygon that owns it (zero if none).  A polygon owns the pixel when
/// it has nonzero screen area, contains the sample point, and its depth
/// there is strictly nearer than everything before it.
pub open spec fn px_state(polys: Seq<Polygon>, n: nat, wx: int, wy: int) -> (int, int)
    decreases n,
{
    if n == 0 {
        (far_s(), 0)
    } else {
        let prev = px_state(polys, (n - 1) as nat, wx, wy);
        let p = polys[n - 1];
        if area2_s(p.points) != 0 && contains_s(p.points, wx, wy) && depth_s(p.points, wx, wy)
            < prev.0 {
            (depth_s(p.points, wx, wy), intensity_s(p))
        } else {
            prev
        }
    }
}

/// The interpolated depth is bounded whenever the vertices and the sample
/// point are.
proof fn lemma_depth_bound(t: Tri, wx: int, wy: int)
    requires
        tri_in_range(t, PROJ_MAX as int),
        -COORD_MAX <= wx <= COORD_MAX,
        -COORD_MAX <= wy <= COORD_MAX,
        area2_s(t) != 0,
    ensures
        -0x40_0000_0000_0000_0000_0000_0000 <= depth_s(t, wx, wy) <= 0x40_0000_0000_0000_0000_0000_0000,
{
    lemma_mul_bound(t.b.y - t.a.y, t.c.z - t.a.z, 0x8000_0000, 0x8000_0000);
    lemma_mul_bound(t.b.z - t.a.z, t.c.y - t.a.y, 0x8000_0000, 0x8000_0000);
    lemma_mul_bound(t.b.z - t.a.z, t.c.x - t.a.x, 0x8000_0000, 0x8000_0000);
    lemma_mul_bound(t.b.x - t.a.x, t.c.z - t.a.z, 0x8000_0000, 0x8000_0000);
    lemma_mul_bound(plane_nx_s(t), wx - t.a.x, 0x8000_0000_0000_0000, 0x8000_0000);
    lemma_mul_bound(plane_ny_s(t), wy - t.a.y, 0x8000_0000_0000_0000, 0x8000_0000);
    let num = plane_nx_s(t) * (wx - t.a.x) + plane_ny_s(t) * (wy - t.a.y);
    crate::mesh::lemma_dtz_mag(num, area2_s(t));
}

/// Rasterization covers exactly the covered pixels: for front-facing
/// polygons, the z-buffer leaves a pixel's intensity nonzero if and only
/// if some polygon of nonzero screen area contains its sample point.
pub proof fn lemma_px_state_nonzero(polys: Seq<Polygon>, n: nat, wx: int, wy: int)
    requires
        n <= polys.len(),
        forall|i: int| 0 <= i < polys.len() ==> (#[trigger] polys[i]).normal.z < 0,
        forall|i: int|
            0 <= i < polys.len() ==> tri_in_range((#[trigger] polys[i]).points, PROJ_MAX as int),
        -COORD_MAX <= wx <= COORD_MAX,
        -COORD_MAX <= wy <= COORD_MAX,
    ensures
        px_state(polys, n, wx, wy).1 != 0 <==> exists|i: int|
            0 <= i < n && area2_s((#[trigger] polys[i]).points) != 0 && contains_s(
                polys[i].points,
                wx,
                wy,
            ),
        px_state(polys, n, wx, wy).1 == 0 <==> px_state(polys, n, wx, wy).0 == far_s(),
        px_state(polys, n, wx, wy).0 <= far_s(),
    decreases n,
{
    if n > 0 {
        lemma_px_state_nonzero(polys, (n - 1) as nat, wx, wy);
        let prev = px_state(polys, (n - 1) as nat, wx, wy);
        let p = polys[n - 1];
        if area2_s(p.points) != 0 && contains_s(p.points, wx, wy) && depth_s(p.points, wx, wy)
            < prev.0 {
            assert(intensity_s(p) != 0);
            assert(area2_s(polys[n - 1].points) != 0 && contains_s(polys[n - 1].points, wx, wy));
            lemma_depth_bound(p.points, wx, wy);
        } else {
            if area2_s(p.points) != 0 && contains_s(p.points, wx, wy) {
                lemma_depth_bound(p.points, wx, wy);
                assert(depth_s(p.points, wx, wy) < far_s());
                assert(prev.0 < far_s());
                assert(prev.1 != 0);
            }
            if px_state(polys, n, wx, wy).1 != 0 {
                let w = choose|i: int|
                    0 <= i < n - 1 && area2_s((#[trigger] polys[i]).points) != 0 && contains_s(
                        polys[i].points,
                        wx,
                        wy,
                    );
                assert(0 <= w < n && area2_s(polys[w].points) != 0 && contains_s(
                    polys[w].points,
                    wx,
                    wy,
                ));
            }
        }
    }
}

/// A mesh with the pinhole camera and viewport that render it.
#[derive(Clone, Debug, PartialEq, Eq)]
pub struct Renderer {
    pub mesh: Mesh,
    pub width: usize,
    pub height: usize,
    pub range: i64,
    pub focal: Vec3,
    pub origin: Vec3,
}

impl Renderer {
    /// The mesh and the camera configuration are within the supported
    /// ranges.  The viewport axes are capped at `SCALE` pixels, the machine
    /// limit that keeps every pixel-coordinate product inside the integer
    /// ranges the rasterizer computes with.
    pub open spec fn wf(self) -> bool {
        &&& self.mesh.wf()
        &&& 1 <= self.width <= SCALE
        &&& 1 <= self.height <= SCALE
        &&& 1 <= self.range <= COORD_MAX
        &&& in_range(self.focal, COORD_MAX as int)
        &&& in_range(self.origin, COORD_MAX as int)
    }

    /// Whether the viewport and camera configuration is acceptable.
    pub open spec fn config_ok(
        width: usize,
        height: usize,
        range: i64,
        focal: Vec3,
        origin: Vec3,
    ) -> bool {
        &&& 1 <= width <= SCALE
        &&& 1 <= height <= SCALE
        &&& 1 <= range <= COORD_MAX
        &&& in_range(focal, COORD_MAX as int)
        &&& in_range(origin, COORD_MAX as int)
    }

    /// Build a renderer from a mesh description and camera parameters: the
    /// stored mesh is exactly what the description parses to.  Construction
    /// fails, with nothing built, if the configuration is out of range or
    /// the description is rejected, and says which.
    pub fn new(
        desc: &[u8],
        width: usize,
        height: usize,
        range: i64,
        focal: Vec3,
        origin: Vec3,
    ) -> (r: Result<Renderer, RenderError>)
        requires
            desc@.len() < 0x4000_0000,
        ensures
            match r {
                Ok(rr) => {
                    &&& Renderer::config_ok(width, height, range, focal, origin)
                    &&& rr.wf()
                    &&& crate::parse::parse_desc_s(desc@) == Ok::<
                        Seq<Polygon>,
                        LoadError,
                    >(rr.mesh.polygons@)
                    &&& rr.width == width && rr.height == height && rr.range == range
                        && rr.focal == focal && rr.origin == origin
                },
                Err(RenderError::BadConfig) => !Renderer::config_ok(
                    width,
                    height,
                    range,
                    focal,
                    origin,
                ),
                Err(RenderError::Load(e)) => Renderer::config_ok(width, height, range, focal, origin)
                    && crate::parse::parse_desc_s(desc@) == Err::<Seq<Polygon>, LoadError>(e),
            },
    {
        if !(width >= 1 && width <= SCALE as usize && height >= 1 && height <= SCALE as usize && range >= 1 && range
            <= COORD_MAX && focal.x >= -COORD_MAX && focal.x <= COORD_MAX && focal.y >= -COORD_MAX
            && focal.y <= COORD_MAX && focal.z >= -COORD_MAX && focal.z <= COORD_MAX && origin.x
            >= -COORD_MAX && origin.x <= COORD_MAX && origin.y >= -COORD_MAX && origin.y
            <= COORD_MAX && origin.z >= -COORD_MAX && origin.z <= COORD_MAX) {
            return Err(RenderError::BadConfig);
        }
        let mesh = match Mesh::load(desc) {
            Ok(m) => m,
            Err(e) => {
                return Err(RenderError::Load(e));
            },
        };
        Ok(Renderer { mesh, width, height, range, focal, origin })
    }

    /// Rotate the mesh in place; the camera is untouched.  On any refusal
    /// the renderer is unchanged, and the refusal says why: a trig pair out
    /// of the unit range, or a rotated coordinate out of the mesh range.
    pub fn rotate(&mut self, tx: Trig, ty: Trig, tz: Trig) -> (r: Result<(), RotateError>)
        requires
            old(self).wf(),
        ensures
            final(self).wf(),
            final(self).width == old(self).width && final(self).height == old(self).height
                && final(self).range == old(self).range && final(self).focal == old(self).focal
                && final(self).origin == old(self).origin,
            match r {
                Ok(()) => {
                    &&& crate::matrix::trig_ok(tx) && crate::matrix::trig_ok(ty)
                        && crate::matrix::trig_ok(tz)
                    &&& final(self).mesh.polygons@.len() == old(self).mesh.polygons@.len()
                    &&& forall|i: int|
                        0 <= i < old(self).mesh.polygons@.len()
                            ==> #[trigger] final(self).mesh.polygons@[i]
                            == crate::mesh::transform_image_s(
                            old(self).mesh.polygons@[i],
                            crate::mesh::euler_mat_s(tx, ty, tz),
                        )
                },
                Err(RotateError::InvalidRotation) => *final(self) == *old(self) && !(
                crate::matrix::trig_ok(tx) && crate::matrix::trig_ok(ty) && crate::matrix::trig_ok(
                    tz,
                )),
                Err(RotateError::OutOfRange) => {
                    &&& *final(self) == *old(self)
                    &&& crate::matrix::trig_ok(tx) && crate::matrix::trig_ok(ty)
                        && crate::matrix::trig_ok(tz)
                    &&& !(forall|i: int|
                        0 <= i < old(self).mesh.polygons@.len() ==> crate::mesh::poly_wf(
                            #[trigger] crate::mesh::transform_image_s(
                                old(self).mesh.polygons@[i],
                                crate::mesh::euler_mat_s(tx, ty, tz),
                            ),
                        ))
                },
            },
    {
        self.mesh.rotate_in_place(tx, ty, tz)
    }

    /// Rasterize the visible polygons (culling and occlusion ordering both
    /// enabled) into a `height x width` intensity grid with a z-buffer:
    /// each pixel holds the flat intensity of the nearest polygon of
    /// nonzero screen area containing its world sample point, or zero.
    pub fn rasterize(&self) -> (r: Result<Vec<Vec<i64>>, ProjectError>)
        requires
            self.wf(),
        ensures
            match r {
                Ok(grid) => {
                    let vis = visible_s(self.mesh.polygons@, self.focal, self.origin, false, false);
                    &&& all_ok_s(self.mesh.polygons@, self.focal, self.origin, false)
                    &&& grid@.len() == self.height
                    &&& forall|y: int| 0 <= y < self.height ==> (#[trigger] grid@[y])@.len() == self.width
                    &&& forall|y: int, x: int|
                        0 <= y < self.height && 0 <= x < self.width ==> (#[trigger] grid@[y]@[x])
                            == px_state(
                            vis,
                            vis.len(),
                            sample_s(x, self.width as int, self.range as int),
                            sample_s(y, self.height as int, self.range as int),
                        ).1
                },
                Err(e) => {
                    &&& !all_ok_s(self.mesh.polygons@, self.focal, self.origin, false)
                    &&& (e == ProjectError::ZeroDepth <==> has_zero_s(
                        self.mesh.polygons@,
                        self.origin,
                        false,
                    ))
                },
            },
    {
        let vis = match self.mesh.raw_visible(self.focal, self.origin, false, false) {
            Ok(v) => v,
            Err(e) => {
                return Err(e);
            },
        };
        let ghost vseq = vis@;
        let nv = vis.len();
        let mut grid: Vec<Vec<i64>> = Vec::new();
        let h = self.height;
        let w = self.width;
        for y in 0..h
            invariant
                h == self.height,
                w == self.width,
                self.wf(),
                vis@ == vseq,
                nv == vseq.len(),
                vseq == visible_s(self.mesh.polygons@, self.focal, self.origin, false, false),
                forall|j: int|
                    0 <= j < vseq.len() ==> tri_in_range(
                        (#[trigger] vseq[j]).points,
                        PROJ_MAX as int,
                    ) && in_range(vseq[j].normal, NORMAL_MAX as int),
                grid@.len() == y,
                forall|yy: int| 0 <= yy < y ==> (#[trigger] grid@[yy])@.len() == w,
                forall|yy: int, x: int|
                    0 <= yy < y && 0 <= x < w ==> (#[trigger] grid@[yy]@[x]) == px_state(
                        vseq,
                        vseq.len(),
                        sample_s(x, w as int, self.range as int),
                        sample_s(yy, h as int, self.range as int),
                    ).1,
        {
            let wy = sample(y, h, self.range);
            let mut row: Vec<i64> = Vec::new();
            for x in 0..w
                invariant
                    h == self.height,
                    w == self.width,
                    self.wf(),
                    vis@ == vseq,
                    nv == vseq.len(),
                    y < h,
                    wy == sample_s(y as int, h as int, self.range as int),
                    -COORD_MAX <= wy <= COORD_MAX,
                    forall|j: int|
                        0 <= j < vseq.len() ==> tri_in_range(
                            (#[trigger] vseq[j]).points,
                            PROJ_MAX as int,
                        ) && in_range(vseq[j].normal, NORMAL_MAX as int),
                    row@.len() == x,
                    forall|xx: int|
                        0 <= xx < x ==> (#[trigger] row@[xx]) == px_state(
                            vseq,
                            vseq.len(),
                            sample_s(xx, w as int, self.range as int),
                            sample_s(y as int, h as int, self.range as int),
                        ).1,
            {
                let wx = sample(x, w, self.range);
                let mut best_d: i128 = i128::MAX;
                let mut best_v: i64 = 0;
                for k in 0..nv
                    invariant
                        nv == vseq.len(),
                        vis@ == vseq,
                        wx == sample_s(x as int, w as int, self.range as int),
                        -COORD_MAX <= wx <= COORD_MAX,
                        wy == sample_s(y as int, h as int, self.range as int),
                        -COORD_MAX <= wy <= COORD_MAX,
                        forall|j: int|
                            0 <= j < vseq.len() ==> tri_in_range(
                                (#[trigger] vseq[j]).points,
                                PROJ_MAX as int,
                            ) && in_range(vseq[j].normal, NORMAL_MAX as int),
                        best_d as int == px_state(vseq, k as nat, wx as int, wy as int).0,
                        best_v as int == px_state(vseq, k as nat, wx as int, wy as int).1,
                {
                    let p = &vis[k];
                    let ar = area2(&p.points);
                    if ar != 0 && contains(&p.points, wx, wy) {
                        let d = depth_at(&p.points, wx, wy, ar);
                        if d < best_d {
                            best_d = d;
                            best_v = if p.normal.z < 0 {
                                -p.normal.z
                            } else {
                                p.normal.z
                            };
                        }
                    }
                }
                row.push(best_v);
            }
            grid.push(row);
        }
        Ok(grid)
    }
}

/// The world coordinate of the center of pixel `p`.
fn sample(p: usize, dim: usize, range: i64) -> (r: i64)
    requires
        p < dim,
        1 <= dim <= SCALE,
        1 <= range <= COORD_MAX,
    ensures
        r == sample_s(p as int, dim as int, range as int),
        -COORD_MAX <= r <= COORD_MAX,
{
    proof {
        lemma_mul_bound(2 * (p as int) - (dim as int), range as int, SCALE as int, COORD_MAX as int);
        assert((2 * (p as int) - (dim as int)) * (range as int) <= (COORD_MAX as int) * (
        dim as int) && -((COORD_MAX as int) * (dim as int)) <= (2 * (p as int) - (dim as int)) * (
        range as int)) by (nonlinear_arith)
            requires
                -(dim as int) <= 2 * (p as int) - (dim as int) <= dim as int,
                1 <= range <= COORD_MAX,
                1 <= dim,
        ;
        crate::fixed::lemma_qtz_bound(
            (2 * (p as int) - (dim as int)) * (range as int),
            dim as int,
            COORD_MAX as int,
        );
    }
    let num = (2 * (p as i128) - (dim as i128)) * (range as i128);
    div_tz(num, dim as i128) as i64
}

/// Twice the signed screen area of a triangle, exactly.
fn area2(t: &Tri) -> (r: i128)
    requires
        tri_in_range(*t, PROJ_MAX as int),
    ensures
        r as int == area2_s(*t),
{
    proof {
        lemma_mul_bound(t.b.x - t.a.x, t.c.y - t.a.y, 0x8000_0000, 0x8000_0000);
        lemma_mul_bound(t.b.y - t.a.y, t.c.x - t.a.x, 0x8000_0000, 0x8000_0000);
    }
    ((t.b.x - t.a.x) as i128) * ((t.c.y - t.a.y) as i128) - ((t.b.y - t.a.y) as i128) * ((t.c.x
        - t.a.x) as i128)
}

/// The sign test for one sample point against one triangle.
fn contains(t: &Tri, wx: i64, wy: i64) -> (r: bool)
    requires
        tri_in_range(*t, PROJ_MAX as int),
        -COORD_MAX <= wx <= COORD_MAX,
        -COORD_MAX <= wy <= COORD_MAX,
    ensures
        r == contains_s(*t, wx as int, wy as int),
{
    proof {
        lemma_mul_bound(t.b.x - t.a.x, wy - t.a.y, 0x8000_0000, 0x8000_0000);
        lemma_mul_bound(t.b.y - t.a.y, wx - t.a.x, 0x8000_0000, 0x8000_0000);
        lemma_mul_bound(t.c.x - t.b.x, wy - t.b.y, 0x8000_0000, 0x8000_0000);
        lemma_mul_bound(t.c.y - t.b.y, wx - t.b.x, 0x8000_0000, 0x8000_0000);
        lemma_mul_bound(t.a.x - t.c.x, wy - t.c.y, 0x8000_0000, 0x8000_0000);
        lemma_mul_bound(t.a.y - t.c.y, wx - t.c.x, 0x8000_0000, 0x8000_0000);
    }
    let e0 = ((t.b.x - t.a.x) as i128) * ((wy - t.a.y) as i128) - ((t.b.y - t.a.y) as i128) * ((wx
        - t.a.x) as i128);
    let e1 = ((t.c.x - t.b.x) as i128) * ((wy - t.b.y) as i128) - ((t.c.y - t.b.y) as i128) * ((wx
        - t.b.x) as i128);
    let e2 = ((t.a.x - t.c.x) as i128) * ((wy - t.c.y) as i128) - ((t.a.y - t.c.y) as i128) * ((wx
        - t.c.x) as i128);
    (e0 >= 0 && e1 >= 0 && e2 >= 0) || (e0 <= 0 && e1 <= 0 && e2 <= 0)
}

/// The interpolated plane depth of the triangle at the sample point.
fn depth_at(t: &Tri, wx: i64, wy: i64, ar: i128) -> (r: i128)
    requires
        tri_in_range(*t, PROJ_MAX as int),
        -COORD_MAX <= wx <= COORD_MAX,
        -COORD_MAX <= wy <= COORD_MAX,
        ar as int == area2_s(*t),
        ar != 0,
    ensures
        r as int == depth_s(*t, wx as int, wy as int),
{
    proof {
        lemma_mul_bound(t.b.y - t.a.y, t.c.z - t.a.z, 0x8000_0000, 0x8000_0000);
        lemma_mul_bound(t.b.z - t.a.z, t.c.y - t.a.y, 0x8000_0000, 0x8000_0000);
        lemma_mul_bound(t.b.z - t.a.z, t.c.x - t.a.x, 0x8000_0000, 0x8000_0000);
        lemma_mul_bound(t.b.x - t.a.x, t.c.z - t.a.z, 0x8000_0000, 0x8000_0000);
        lemma_mul_bound(t.b.x - t.a.x, t.c.y - t.a.y, 0x8000_0000, 0x8000_0000);
        lemma_mul_bound(t.b.y - t.a.y, t.c.x - t.a.x, 0x8000_0000, 0x8000_0000);
        lemma_mul_bound(plane_nx_s(*t), wx - t.a.x, 0x8000_0000_0000_0000, 0x8000_0000);
        lemma_mul_bound(plane_ny_s(*t), wy - t.a.y, 0x8000_0000_0000_0000, 0x8000_0000);
        crate::mesh::lemma_dtz_mag(
            plane_nx_s(*t) * ((wx as int) - t.a.x) + plane_ny_s(*t) * ((wy as int) - t.a.y),
            area2_s(*t),
        );
    }
    let nx = ((t.b.y - t.a.y) as i128) * ((t.c.z - t.a.z) as i128) - ((t.b.z - t.a.z) as i128) * ((
    t.c.y - t.a.y) as i128);
    let ny = ((t.b.z - t.a.z) as i128) * ((t.c.x - t.a.x) as i128) - ((t.b.x - t.a.x) as i128) * ((
    t.c.z - t.a.z) as i128);
    let num = nx * ((wx - t.a.x) as i128) + ny * ((wy - t.a.y) as i128);
    (t.a.z as i128) - div_tz(num, ar)
}

} // verus!
