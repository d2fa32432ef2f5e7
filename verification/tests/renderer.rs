use meshrender::fixed::SCALE;
use meshrender::matrix::Mat3;
use meshrender::matrix::Trig;
use meshrender::mesh::Mesh;
use meshrender::mesh::ProjectError;
use meshrender::mesh::RotateError;
use meshrender::parse::LoadError;
use meshrender::polygon::GeomError;
use meshrender::polygon::Polygon;
use meshrender::polygon::Tri;
use meshrender::render::RenderError;
use meshrender::render::Renderer;
use meshrender::vec3::Vec3;

const S: i64 = SCALE;

fn v(x: i64, y: i64, z: i64) -> Vec3 {
    Vec3 { x, y, z }
}

fn tri(a: Vec3, b: Vec3, c: Vec3) -> Tri {
    Tri { a, b, c }
}

fn t90() -> Trig {
    Trig { sin: S, cos: 0 }
}

fn t0() -> Trig {
    Trig { sin: 0, cos: S }
}

/// A triangle at z = 1 facing the camera (normal z negative).
fn facing_tri(z: i64) -> Tri {
    tri(v(0, 0, z), v(0, S, z), v(S, 0, z))
}

#[test]
fn normal_unit_length() {
    // Unit right triangle in the xy plane: the raw cross is (0, 0, 2^32)
    // and the unit normal comes out exactly one unit long.
    let p = Polygon::new(tri(v(0, 0, 0), v(S, 0, 0), v(0, S, 0))).unwrap();
    assert_eq!(p.normal, v(0, 0, S));
    // A less round triangle stays within half a percent of unit length.
    let q = Polygon::new(tri(v(0, 0, 0), v(3 * S, S / 3, 0), v(-S / 7, 2 * S, S / 2))).unwrap();
    let n2 = (q.normal.x as i128) * (q.normal.x as i128) + (q.normal.y as i128) * (q.normal.y
        as i128) + (q.normal.z as i128) * (q.normal.z as i128);
    let unit = (S as i128) * (S as i128);
    assert!(n2 >= unit - unit / 200);
    assert!(n2 <= unit + unit / 200);
}

#[test]
fn degenerate_triangle_rejected() {
    // Collinear points span no plane.
    let r = Polygon::new(tri(v(0, 0, 0), v(S, S, S), v(2 * S, 2 * S, 2 * S)));
    assert_eq!(r, Err(GeomError::Degenerate));
}

#[test]
fn rotation_preserves_norms() {
    // A quarter turn about z is exact in fixed point: (x, y, z) maps to
    // (-y, x, z) and every vertex keeps its distance from the origin.
    let p = Polygon::new(facing_tri(S)).unwrap();
    let m = Mat3::rot_z(t90());
    let r = p.transform(&m);
    assert_eq!(r.points.a, v(0, 0, S));
    assert_eq!(r.points.b, v(-S, 0, S));
    assert_eq!(r.points.c, v(0, S, S));
    let norm2 = |p: Vec3| (p.x as i128) * (p.x as i128) + (p.y as i128) * (p.y as i128) + (p.z
        as i128) * (p.z as i128);
    assert_eq!(norm2(p.points.a), norm2(r.points.a));
    assert_eq!(norm2(p.points.b), norm2(r.points.b));
    assert_eq!(norm2(p.points.c), norm2(r.points.c));
    // The cached normal is rotated by the same matrix: it stays -z here.
    assert_eq!(r.normal, v(0, 0, -S));
}

#[test]
fn rotation_composition_order() {
    // Three quarter turns, one axis at a time, equal one combined call:
    // the combined matrix is Rz * Ry * Rx, x applied first.
    let p = Polygon::new(facing_tri(S)).unwrap();
    let mut m1 = Mesh::from_polygons(vec![p]).unwrap();
    let mut m2 = m1.clone();
    m1.rotate_in_place(t90(), t0(), t0()).unwrap();
    m1.rotate_in_place(t0(), t90(), t0()).unwrap();
    m1.rotate_in_place(t0(), t0(), t90()).unwrap();
    m2.rotate_in_place(t90(), t90(), t90()).unwrap();
    assert_eq!(m1.polygons, m2.polygons);
    // And the combined quarter-turn matrix maps (a, b, c) to (c, b, -a).
    let q = m2.polygons[0].points.a;
    assert_eq!(q, v(S, 0, 0));
}

#[test]
fn culling_excludes_back_face() {
    // The triangle (0,0,1),(1,0,1),(0,1,1) has normal +z: with the camera
    // at the origin it faces away and culling removes it.
    let p = Polygon::new(tri(v(0, 0, S), v(S, 0, S), v(0, S, S))).unwrap();
    assert_eq!(p.normal, v(0, 0, S));
    let mesh = Mesh::from_polygons(vec![p]).unwrap();
    let focal = v(0, 0, S);
    let origin = v(0, 0, 0);
    let culled = mesh.project(focal, origin, false).unwrap();
    assert_eq!(culled.len(), 0);
    let kept = mesh.project(focal, origin, true).unwrap();
    assert_eq!(kept.len(), 1);
}

#[test]
fn projection_values() {
    // With focal (0,0,1) and the eye at the origin, a point at depth 1
    // projects to its own x and y; at depth 2 they halve.
    let p = Polygon::new(tri(v(0, 0, 2 * S), v(0, S, 2 * S), v(S, 0, 2 * S))).unwrap();
    let mesh = Mesh::from_polygons(vec![p]).unwrap();
    let out = mesh.project(v(0, 0, S), v(0, 0, 0), false).unwrap();
    assert_eq!(out.len(), 1);
    assert_eq!(out[0].a, v(0, 0, 2 * S));
    assert_eq!(out[0].b, v(0, S / 2, 2 * S));
    assert_eq!(out[0].c, v(S / 2, 0, 2 * S));
}

#[test]
fn depth_ordering_nearest_last() {
    // Three triangles at depths 1, 5 and 10: shading with occlusion
    // ordering returns them farthest first, nearest last.
    let near = Polygon::new(facing_tri(S)).unwrap();
    let mid = Polygon::new(facing_tri(5 * S)).unwrap();
    let far = Polygon::new(facing_tri(10 * S)).unwrap();
    let mesh = Mesh::from_polygons(vec![near, mid, far]).unwrap();
    let focal = v(0, 0, S);
    let origin = v(0, 0, 0);
    let shaded = mesh.shade(focal, origin, false, false).unwrap();
    assert_eq!(shaded.len(), 3);
    assert_eq!(shaded[0].0.a.z, 10 * S);
    assert_eq!(shaded[1].0.a.z, 5 * S);
    assert_eq!(shaded[2].0.a.z, S);
    // Flat intensity is the magnitude of the normal's z component.
    assert_eq!(shaded[0].1, S);
    // Re-running the same pure computation yields identical output.
    let again = mesh.shade(focal, origin, false, false).unwrap();
    assert_eq!(shaded, again);
}

#[test]
fn stable_order_for_equal_depths() {
    // Two triangles in the same depth bucket keep their original order.
    let first = Polygon::new(tri(v(0, 0, S), v(0, S, S), v(S, 0, S))).unwrap();
    let second = Polygon::new(tri(v(S, S, S), v(S, 2 * S, S), v(2 * S, S, S))).unwrap();
    let mesh = Mesh::from_polygons(vec![first, second]).unwrap();
    let shaded = mesh.shade(v(0, 0, S), v(0, 0, 0), false, false).unwrap();
    assert_eq!(shaded.len(), 2);
    assert_eq!(shaded[0].0.a.x, 0);
    assert_eq!(shaded[1].0.a.x, S);
}

#[test]
fn round_trip_load() {
    let desc = b"v 0 0 0\nv 1 0 0\nv 0 1 0\nf 1 2 3\n";
    let mesh = Mesh::load(desc).unwrap();
    assert_eq!(mesh.polygons.len(), 1);
    let p = &mesh.polygons[0];
    assert_eq!(p.points.a, v(0, 0, 0));
    assert_eq!(p.points.b, v(S, 0, 0));
    assert_eq!(p.points.c, v(0, S, 0));
}

#[test]
fn load_parses_decimals_comments_and_slashes() {
    let desc = b"# a comment\nv -0.5 0.25 2\nv 1.5 0 0\nv 0 1 0\ng group\nf 1/2/3 2/1 3\n";
    let mesh = Mesh::load(desc).unwrap();
    assert_eq!(mesh.polygons.len(), 1);
    let p = &mesh.polygons[0];
    assert_eq!(p.points.a, v(-S / 2, S / 4, 2 * S));
    assert_eq!(p.points.b, v(S + S / 2, 0, 0));
    assert_eq!(p.points.c, v(0, S, 0));
}

#[test]
fn load_rejects_malformed_vertex() {
    assert_eq!(Mesh::load(b"v 1 2\n"), Err(LoadError::MalformedVertex));
    assert_eq!(Mesh::load(b"v 1 2 x\n"), Err(LoadError::MalformedVertex));
}

#[test]
fn load_rejects_malformed_face() {
    assert_eq!(
        Mesh::load(b"v 0 0 0\nv 1 0 0\nv 0 1 0\nf 1 2\n"),
        Err(LoadError::MalformedFace)
    );
    assert_eq!(
        Mesh::load(b"v 0 0 0\nv 1 0 0\nv 0 1 0\nf a 2 3\n"),
        Err(LoadError::MalformedFace)
    );
}

#[test]
fn load_rejects_out_of_range_index() {
    assert_eq!(
        Mesh::load(b"v 0 0 0\nv 1 0 0\nv 0 1 0\nf 1 2 4\n"),
        Err(LoadError::FaceIndexOutOfRange)
    );
    // References are 1-based: 0 is out of range.
    assert_eq!(
        Mesh::load(b"v 0 0 0\nv 1 0 0\nv 0 1 0\nf 0 1 2\n"),
        Err(LoadError::FaceIndexOutOfRange)
    );
}

#[test]
fn load_rejects_degenerate_face() {
    assert_eq!(
        Mesh::load(b"v 0 0 0\nv 1 1 1\nv 2 2 2\nf 1 2 3\n"),
        Err(LoadError::DegenerateFace)
    );
}

#[test]
fn rotate_rejects_bad_trig() {
    let p = Polygon::new(facing_tri(S)).unwrap();
    let mut mesh = Mesh::from_polygons(vec![p]).unwrap();
    let before = mesh.polygons.clone();
    let bad = Trig { sin: S + 1, cos: 0 };
    assert_eq!(
        mesh.rotate_in_place(bad, t0(), t0()),
        Err(RotateError::InvalidRotation)
    );
    assert_eq!(mesh.polygons, before);
}

#[test]
fn rotate_rejects_out_of_range_result() {
    // A 45-degree turn stretches an extreme corner coordinate out of the
    // supported range; the mesh is left untouched.
    let c = 33554432; // the coordinate bound
    let p = Polygon::new(tri(v(c, c, 0), v(c - S, c, 0), v(c, c - S, S))).unwrap();
    let mut mesh = Mesh::from_polygons(vec![p]).unwrap();
    let before = mesh.polygons.clone();
    let t45 = Trig { sin: 46341, cos: 46341 };
    assert_eq!(
        mesh.rotate_in_place(t0(), t0(), t45),
        Err(RotateError::OutOfRange)
    );
    assert_eq!(mesh.polygons, before);
}

#[test]
fn rotate_flat_points() {
    // The pure variant returns the transformed vertices, three per
    // polygon, without touching the mesh.
    let p = Polygon::new(facing_tri(S)).unwrap();
    let mesh = Mesh::from_polygons(vec![p]).unwrap();
    let pts = mesh.rotate(t0(), t0(), t90()).unwrap();
    assert_eq!(pts.len(), 3);
    assert_eq!(pts[0], v(0, 0, S));
    assert_eq!(pts[1], v(-S, 0, S));
    assert_eq!(pts[2], v(0, S, S));
    assert_eq!(mesh.polygons[0].points.a, v(0, 0, S));
}

#[test]
fn project_rejects_zero_depth() {
    let p = Polygon::new(facing_tri(S)).unwrap();
    let mesh = Mesh::from_polygons(vec![p]).unwrap();
    // The eye sits in the triangle's plane: depth zero.
    let r = mesh.project(v(0, 0, S), v(0, 0, S), false);
    assert_eq!(r, Err(ProjectError::ZeroDepth));
}

#[test]
fn project_rejects_out_of_view() {
    // A vertex one fixed-point unit in front of the eye blows up the
    // perspective division past the screen range.
    let p = Polygon::new(tri(v(S, 0, 1), v(0, S, 1), v(S, S, 1))).unwrap();
    let mesh = Mesh::from_polygons(vec![p]).unwrap();
    let r = mesh.project(v(0, 0, S), v(0, 0, 0), true);
    assert_eq!(r, Err(ProjectError::OutOfView));
}

#[test]
fn rasterize_fills_exactly_covered_pixels() {
    // A triangle in the z = 1 plane, projected one-to-one, rendered into a
    // 10 x 10 grid spanning [-1, 1]: a pixel is lit exactly when its
    // back-projected center passes the sign test against the triangle.
    let a = v(-S / 2, -S / 2, S);
    let b = v(-S / 2, S / 2, S);
    let c = v(S / 2, -S / 2, S);
    let p = Polygon::new(tri(a, b, c)).unwrap();
    assert!(p.normal.z < 0);
    let desc = b"v -0.5 -0.5 1\nv -0.5 0.5 1\nv 0.5 -0.5 1\nf 1 2 3\n";
    let r = Renderer::new(desc, 10, 10, S, v(0, 0, S), v(0, 0, 0)).unwrap();
    let grid = r.rasterize().unwrap();
    assert_eq!(grid.len(), 10);
    let sample = |p: i64| (2 * p - 10) * S / 10;
    let edge = |ax: i64, ay: i64, bx: i64, by: i64, px: i64, py: i64| {
        (bx - ax) as i128 * (py - ay) as i128 - (by - ay) as i128 * (px - ax) as i128
    };
    for y in 0..10i64 {
        assert_eq!(grid[y as usize].len(), 10);
        for x in 0..10i64 {
            let wx = sample(x);
            let wy = sample(y);
            let e0 = edge(a.x, a.y, b.x, b.y, wx, wy);
            let e1 = edge(b.x, b.y, c.x, c.y, wx, wy);
            let e2 = edge(c.x, c.y, a.x, a.y, wx, wy);
            let inside = (e0 >= 0 && e1 >= 0 && e2 >= 0) || (e0 <= 0 && e1 <= 0 && e2 <= 0);
            let lit = grid[y as usize][x as usize] != 0;
            assert_eq!(lit, inside);
            if lit {
                assert_eq!(grid[y as usize][x as usize], S);
            }
        }
    }
}

#[test]
fn rasterize_nearer_polygon_wins() {
    // Two overlapping triangles; the nearer one's intensity fills the
    // overlap.  The nearer is tilted so its intensity differs.
    let desc = b"v -1 -1 1\nv -1 1 1\nv 1 -1 1\nv -1 -1 0.5\nv -1 1 0.5\nv 1 -1 0.6\nf 1 2 3\nf 4 5 6\n";
    let r = Renderer::new(desc, 8, 8, S, v(0, 0, S), v(0, 0, 0)).unwrap();
    let grid = r.rasterize().unwrap();
    // The pixel at the center of the overlap carries the nearer (tilted)
    // triangle's intensity, which is below one unit.
    let center = grid[2][2];
    assert!(center != 0);
    assert!(center < S);
}

#[test]
fn renderer_rejects_bad_config() {
    let desc = b"v 0 0 0\nv 1 0 0\nv 0 1 0\nf 1 2 3\n";
    let r = Renderer::new(desc, 0, 10, S, v(0, 0, S), v(0, 0, 0));
    assert_eq!(r, Err(RenderError::BadConfig));
}

#[test]
fn renderer_propagates_load_error() {
    let r = Renderer::new(b"v 1\n", 10, 10, S, v(0, 0, S), v(0, 0, 0));
    assert_eq!(r, Err(RenderError::Load(LoadError::MalformedVertex)));
}

#[test]
fn renderer_rotate_forwards() {
    let desc = b"v 0 0 1\nv 0 1 1\nv 1 0 1\nf 1 2 3\n";
    let mut r = Renderer::new(desc, 10, 10, S, v(0, 0, S), v(0, 0, 0)).unwrap();
    r.rotate(t0(), t0(), t90()).unwrap();
    assert_eq!(r.mesh.polygons[0].points.b, v(-S, 0, S));
    let bad = Trig { sin: 2 * S, cos: 0 };
    assert_eq!(r.rotate(bad, t0(), t0()), Err(RotateError::InvalidRotation));
}

#[test]
fn vector_kernel_ops() {
    let a = v(2 * S, 0, 0);
    let b = v(0, 3 * S, 0);
    assert_eq!(a.add(b), v(2 * S, 3 * S, 0));
    assert_eq!(a.sub(b), v(2 * S, -3 * S, 0));
    assert_eq!(a.scale(S / 2), v(S, 0, 0));
    assert_eq!(a.dot(b), 0);
    assert_eq!(a.dot(a), 4 * S);
    // cross of x and y axes is the z axis (times the product of lengths).
    assert_eq!(a.cross(b), v(0, 0, 6 * S));
    assert_eq!(a.norm2(), 4 * S);
    assert_eq!(a.normalize(), v(S, 0, 0));
    let d = v(S, S, S).normalize();
    let n2 = (d.x as i128) * (d.x as i128) + (d.y as i128) * (d.y as i128) + (d.z as i128) * (d.z
        as i128);
    let unit = (S as i128) * (S as i128);
    assert!(n2 >= unit - unit / 200 && n2 <= unit + unit / 200);
}

#[test]
fn from_polygons_rejects_out_of_range() {
    let p = Polygon {
        points: tri(v(1 << 40, 0, 0), v(0, 0, 0), v(0, 0, 0)),
        normal: v(0, 0, 0),
    };
    assert!(Mesh::from_polygons(vec![p]).is_none());
}

#[test]
fn shade_without_occlusion_keeps_input_order() {
    let near = Polygon::new(facing_tri(S)).unwrap();
    let far = Polygon::new(facing_tri(10 * S)).unwrap();
    let mesh = Mesh::from_polygons(vec![near, far]).unwrap();
    let shaded = mesh.shade(v(0, 0, S), v(0, 0, 0), false, true).unwrap();
    assert_eq!(shaded.len(), 2);
    assert_eq!(shaded[0].0.a.z, S);
    assert_eq!(shaded[1].0.a.z, 10 * S);
}

#[test]
fn zero_depth_reported_over_out_of_view() {
    // One polygon grazes the camera plane and another blows up the
    // projection; the camera-plane error is the one reported.
    let zero = Polygon::new(tri(v(0, 0, 0), v(0, S, 0), v(S, 0, 0))).unwrap();
    let oov = Polygon::new(tri(v(S, 0, 1), v(0, S, 1), v(S, S, 1))).unwrap();
    let mesh = Mesh::from_polygons(vec![oov, zero]).unwrap();
    let r = mesh.project(v(0, 0, S), v(0, 0, 0), true);
    assert_eq!(r, Err(ProjectError::ZeroDepth));
}

#[test]
fn rotate_pure_rejects_bad_trig() {
    let p = Polygon::new(facing_tri(S)).unwrap();
    let mesh = Mesh::from_polygons(vec![p]).unwrap();
    let bad = Trig { sin: 0, cos: -S - 1 };
    assert_eq!(mesh.rotate(t0(), bad, t0()), Err(RotateError::InvalidRotation));
}

#[test]
fn load_accepts_signs_and_bare_dots() {
    // "+1." is one, ".5" is a half, "-.25" is minus a quarter.
    let desc = b"v +1. .5 -.25\nv 1 0 0\nv 0 1 0\nf 1 2 3\n";
    let mesh = Mesh::load(desc).unwrap();
    assert_eq!(mesh.polygons[0].points.a, v(S, S / 2, -S / 4));
}

#[test]
fn load_rejects_overlong_number() {
    // More than thirteen digits in a run is refused, not truncated.
    let desc = b"v 0.12345678901234 0 0\nv 1 0 0\nv 0 1 0\nf 1 2 3\n";
    assert_eq!(Mesh::load(desc), Err(LoadError::MalformedVertex));
}

#[test]
fn sub_resolution_triangle_rejected() {
    // A nonzero but vanishingly small triangle (raw cross (-1,-1,1)) has no
    // meaningful fixed-point normal and is rejected like a zero-area one.
    let r = Polygon::new(tri(v(0, 0, 0), v(1, 0, 1), v(0, 1, 1)));
    assert_eq!(r, Err(GeomError::Degenerate));
}
