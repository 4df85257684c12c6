//! The scene: solids that spin about their vertical axis while they move
//! along a tilted orbit, and the sphere of meridians and circles of
//! latitude that stands still in the middle.
//!
//! Angles are fixed-point numbers too. Their sines and cosines are not
//! computed here: the caller hands them in as a `Turn`.

use vstd::prelude::*;
use crate::config::{ORBIT_A, ORBIT_B, ORBIT_C, orbit_a, orbit_b, orbit_c};
use crate::fixed::{
    ONE, one, round_ratio, saturate, fixed_mul_spec, fixed_mul, div_round, saturate_i32,
};
use crate::grid::{cell_index, lemma_cell_index};
use crate::vector::{Point3, move_by, move_by_spec, lemma_product_bounds};

verus! {

/// An angle, given by its cosine and its sine.
#[derive(Clone, Copy, Debug, PartialEq, Eq, Structural)]
pub struct Turn {
    pub cos: i32,
    pub sin: i32,
}

/// A wireframe solid and its state of motion.
pub struct Solid {
    /// The vertices, scaled, before any rotation.
    pub vertices: Vec<Point3>,
    /// The edges, each a pair of places in `vertices`.
    pub edges: Vec<(usize, usize)>,
    /// The factor by which the vertices were scaled.
    pub scale: i32,
    /// How fast the solid spins, as a multiple of the base speed.
    pub sv_ratio: i32,
    /// The angle by which the solid has turned.
    pub angle: i64,
}

/// Every edge joins two of `n` vertices.
pub open spec fn edges_in_range(edges: Seq<(usize, usize)>, n: nat) -> bool {
    forall|i: int| 0 <= i < edges.len() ==> (#[trigger] edges[i]).0 < n && edges[i].1 < n
}

/// `v` with each coordinate multiplied by `scale`.
pub open spec fn scale_point_spec(v: Point3, scale: int) -> Point3 {
    Point3 {
        x: fixed_mul_spec(v.x as int, scale) as i32,
        y: fixed_mul_spec(v.y as int, scale) as i32,
        z: fixed_mul_spec(v.z as int, scale) as i32,
    }
}

/// Each of `vertices` with each coordinate multiplied by `scale`.
pub open spec fn scaled_spec(vertices: Seq<Point3>, scale: int) -> Seq<Point3> {
    Seq::new(vertices.len(), |i: int| scale_point_spec(vertices[i], scale))
}

/// `v` turned about the vertical axis by the angle `t`.
pub open spec fn rotate_y_spec(v: Point3, t: Turn) -> Point3 {
    Point3 {
        x: saturate(round_ratio(v.x * t.cos + v.z * t.sin, one())) as i32,
        y: v.y,
        z: saturate(round_ratio(v.z * t.cos - v.x * t.sin, one())) as i32,
    }
}

/// The centre of the solids when the orbit has reached the angle `t`. The
/// orbit is an ellipse in each pair of axes; the depth runs a quarter turn
/// ahead of the height, and the sine of an angle a quarter turn ahead is the
/// angle's cosine.
pub open spec fn orbit_offset_spec(t: Turn) -> Point3 {
    Point3 {
        x: fixed_mul_spec(orbit_a(), t.cos as int) as i32,
        y: fixed_mul_spec(orbit_b(), t.sin as int) as i32,
        z: fixed_mul_spec(orbit_c(), t.cos as int) as i32,
    }
}

/// Where a vertex `v` of a solid stands when the solid has turned by `turn`
/// and its centre is at `offset`.
pub open spec fn place_spec(v: Point3, turn: Turn, offset: Point3) -> Point3 {
    move_by_spec(rotate_y_spec(v, turn), offset)
}

/// Where each of `vertices` stands when the solid has turned by `turn` and
/// its centre is at `offset`.
pub open spec fn placed_spec(vertices: Seq<Point3>, turn: Turn, offset: Point3) -> Seq<Point3> {
    Seq::new(vertices.len(), |i: int| place_spec(vertices[i], turn, offset))
}

/// The point of a sphere of the given radius at the latitude `lat` and the
/// longitude `lon`.
pub open spec fn sphere_point_spec(radius: int, lat: Turn, lon: Turn) -> Point3 {
    let ring = fixed_mul_spec(radius, lat.cos as int);
    Point3 {
        x: fixed_mul_spec(ring, lon.cos as int) as i32,
        y: fixed_mul_spec(radius, lat.sin as int) as i32,
        z: fixed_mul_spec(ring, lon.sin as int) as i32,
    }
}

/// The cell that follows `cell` on its ring of `longs` cells; the last cell
/// of a ring is followed by the first.
pub open spec fn ring_next(cell: int, longs: int) -> int {
    (cell / longs) * longs + (cell % longs + 1) % longs
}

/// The number of edges of a sphere with `lats` rings of `longs` vertices
/// each: every vertex has an edge along its ring, and every vertex but those
/// of the last ring has one to the ring below.
pub open spec fn sphere_edge_count(lats: int, longs: int) -> int {
    if lats <= 0 {
        0
    } else {
        2 * ((lats - 1) * longs) + longs
    }
}

/// The edge at place `p` in the list of a sphere's edges. The vertices are
/// numbered ring by ring. For each vertex above the last ring the list holds
/// its edge to the vertex below and then its edge along the ring; for each
/// vertex of the last ring only the latter.
pub open spec fn sphere_edge(lats: int, longs: int, p: int) -> (usize, usize) {
    let above = (lats - 1) * longs;
    if p < 2 * above {
        if p % 2 == 0 {
            ((p / 2) as usize, (p / 2 + longs) as usize)
        } else {
            ((p / 2) as usize, ring_next(p / 2, longs) as usize)
        }
    } else {
        ((p - above) as usize, ring_next(p - above, longs) as usize)
    }
}

/// The first `n` edges of a sphere.
pub open spec fn sphere_edges_before(lats: int, longs: int, n: int) -> Seq<(usize, usize)> {
    Seq::new(n as nat, |p: int| sphere_edge(lats, longs, p))
}

/// The edges of a sphere with `lats` rings of `longs` vertices each.
pub open spec fn sphere_edges_spec(lats: int, longs: int) -> Seq<(usize, usize)> {
    sphere_edges_before(lats, longs, sphere_edge_count(lats, longs))
}

/// The vertex after a vertex on its ring lies on the same ring.
proof fn lemma_ring_next(longs: int, ring: int, j: int)
    requires
        0 <= ring,
        0 <= j < longs,
    ensures
        ring_next(cell_index(longs, ring, j), longs) == cell_index(
            longs,
            ring,
            if j + 1 == longs {
                0
            } else {
                j + 1
            },
        ),
        ring * longs <= ring_next(cell_index(longs, ring, j), longs) < ring * longs + longs,
        (j + 1) % longs == (if j + 1 == longs {
            0
        } else {
            j + 1
        }),
{
    lemma_cell_index(longs, ring + 1, ring, j);
    if j + 1 == longs {
        assert((j + 1) % longs == 0) by (nonlinear_arith)
            requires
                j + 1 == longs,
                longs > 0,
        ;
    } else {
        assert((j + 1) % longs == j + 1) by (nonlinear_arith)
            requires
                0 <= j + 1 < longs,
        ;
    }
}

/// Every edge of a sphere joins two of its vertices.
pub proof fn lemma_sphere_edges_in_range(lats: int, longs: int)
    requires
        0 <= lats,
        0 <= longs,
        lats * longs <= usize::MAX,
    ensures
        edges_in_range(sphere_edges_spec(lats, longs), (lats * longs) as nat),
{
    let edges = sphere_edges_spec(lats, longs);
    assert forall|p: int| 0 <= p < edges.len() implies (#[trigger] edges[p]).0 < lats * longs
        && edges[p].1 < lats * longs by {
        let above = (lats - 1) * longs;
        assert(above + longs == lats * longs && 0 <= above) by (nonlinear_arith)
            requires
                above == (lats - 1) * longs,
                lats >= 1,
                longs >= 0,
        ;
        let c = if p < 2 * above {
            p / 2
        } else {
            p - above
        };
        assert(0 <= c < lats * longs);
        assert(longs > 0);
        let ring = c / longs;
        let j = c % longs;
        assert(c == cell_index(longs, ring, j) && 0 <= ring && 0 <= j < longs && ring * longs
            <= c) by (nonlinear_arith)
            requires
                ring == c / longs,
                j == c % longs,
                0 <= c,
                longs > 0,
        ;
        lemma_ring_next(longs, ring, j);
        assert(ring * longs + longs <= lats * longs) by (nonlinear_arith)
            requires
                ring * longs <= c,
                c < lats * longs,
                longs > 0,
        ;
    }
}

/// Tells whether every edge joins two of `n` vertices.
pub fn check_edges(edges: &[(usize, usize)], n: usize) -> (ok: bool)
    ensures
        ok == edges_in_range(edges@, n as nat),
{
    let mut i: usize = 0;
    while i < edges.len()
        invariant
            i <= edges@.len(),
            forall|k: int| 0 <= k < i ==> (#[trigger] edges@[k]).0 < n && edges@[k].1 < n,
        decreases edges@.len() - i,
    {
        let e: (usize, usize) = edges[i];
        if e.0 >= n || e.1 >= n {
            return false;
        }
        i = i + 1;
    }
    true
}

/// Returns `v` with each coordinate multiplied by `scale`.
pub fn scale_point(v: Point3, scale: i32) -> (p: Point3)
    ensures
        p == scale_point_spec(v, scale as int),
{
    Point3 { x: fixed_mul(v.x, scale), y: fixed_mul(v.y, scale), z: fixed_mul(v.z, scale) }
}

/// Returns `v` turned about the vertical axis by the angle `t`.
pub fn rotate_y(v: Point3, t: Turn) -> (p: Point3)
    ensures
        p == rotate_y_spec(v, t),
{
    proof {
        lemma_product_bounds(v.x as int, t.cos as int);
        lemma_product_bounds(v.z as int, t.sin as int);
        lemma_product_bounds(v.z as int, t.cos as int);
        lemma_product_bounds(v.x as int, t.sin as int);
    }
    let x: i128 = (v.x as i128) * (t.cos as i128) + (v.z as i128) * (t.sin as i128);
    let z: i128 = (v.z as i128) * (t.cos as i128) - (v.x as i128) * (t.sin as i128);
    Point3 {
        x: saturate_i32(div_round(x, ONE as i128)),
        y: v.y,
        z: saturate_i32(div_round(z, ONE as i128)),
    }
}

/// Returns the centre of the solids when the orbit has reached the angle
/// `t`.
pub fn orbit_offset(t: Turn) -> (p: Point3)
    ensures
        p == orbit_offset_spec(t),
{
    Point3 { x: fixed_mul(ORBIT_A, t.cos), y: fixed_mul(ORBIT_B, t.sin), z: fixed_mul(ORBIT_C, t.cos) }
}

/// Returns where the vertex `v` of a solid stands when the solid has turned
/// by `turn` and its centre is at `offset`.
pub fn place(v: Point3, turn: Turn, offset: Point3) -> (p: Point3)
    ensures
        p == place_spec(v, turn, offset),
{
    move_by(rotate_y(v, turn), offset)
}

impl Solid {
    /// The edges join vertices of the solid.
    pub open spec fn wf(&self) -> bool {
        edges_in_range(self.edges@, self.vertices@.len())
    }

    /// Makes a solid from its shape: the vertices are scaled by `scale`,
    /// and the solid has not turned yet.
    pub fn new(vertices: &[Point3], edges: &[(usize, usize)], scale: i32, sv_ratio: i32) -> (solid:
        Solid)
        requires
            edges_in_range(edges@, vertices@.len()),
        ensures
            solid.wf(),
            solid.vertices@ == scaled_spec(vertices@, scale as int),
            solid.edges@ == edges@,
            solid.scale == scale,
            solid.sv_ratio == sv_ratio,
            solid.angle == 0,
    {
        let mut scaled: Vec<Point3> = Vec::new();
        let mut i: usize = 0;
        while i < vertices.len()
            invariant
                i <= vertices@.len(),
                scaled@.len() == i,
                forall|k: int|
                    0 <= k < i ==> scaled@[k] == scale_point_spec(vertices@[k], scale as int),
            decreases vertices@.len() - i,
        {
            scaled.push(scale_point(vertices[i], scale));
            i = i + 1;
        }
        let mut copied: Vec<(usize, usize)> = Vec::new();
        let mut j: usize = 0;
        while j < edges.len()
            invariant
                j <= edges@.len(),
                copied@.len() == j,
                forall|k: int| 0 <= k < j ==> copied@[k] == edges@[k],
            decreases edges@.len() - j,
        {
            copied.push(edges[j]);
            j = j + 1;
        }
        assert(scaled@ =~= scaled_spec(vertices@, scale as int));
        assert(copied@ =~= edges@);
        Solid { vertices: scaled, edges: copied, scale, sv_ratio, angle: 0 }
    }

    /// Returns the angle by which the solid turns per frame when a solid
    /// with spin ratio 1.0 turns by `base_speed`.
    pub fn spin_step(&self, base_speed: i32) -> (omega: i32)
        ensures
            omega == fixed_mul_spec(base_speed as int, self.sv_ratio as int),
    {
        fixed_mul(base_speed, self.sv_ratio)
    }

    /// Tells whether the solid can turn on by the angle `omega`: whether its
    /// angle stays in the range of its type.
    pub fn can_update(&self, omega: i32) -> (ok: bool)
        ensures
            ok == (i64::MIN <= self.angle + omega <= i64::MAX),
    {
        self.angle.checked_add(omega as i64).is_some()
    }

    /// Turns the solid on by the angle `omega`.
    pub fn update(&mut self, omega: i32)
        requires
            i64::MIN <= old(self).angle + omega <= i64::MAX,
        ensures
            final(self).angle == old(self).angle + omega,
            final(self).vertices == old(self).vertices,
            final(self).edges == old(self).edges,
            final(self).scale == old(self).scale,
            final(self).sv_ratio == old(self).sv_ratio,
    {
        self.angle = self.angle + omega as i64;
    }
}

/// Returns the angle `step` after `angle`, or nothing where that angle
/// leaves the range of its type. This is how the orbit advances from frame
/// to frame.
pub fn advance_angle(angle: i64, step: i32) -> (next: Option<i64>)
    ensures
        next == (if i64::MIN <= angle + step <= i64::MAX {
            Some((angle + step) as i64)
        } else {
            None
        }),
{
    angle.checked_add(step as i64)
}

/// Returns the edges of a sphere with `lats` rings of `longs` vertices
/// each, the vertices numbered ring by ring.
pub fn sphere_edges(lats: usize, longs: usize) -> (edges: Vec<(usize, usize)>)
    requires
        lats * longs <= usize::MAX,
    ensures
        edges@ == sphere_edges_spec(lats as int, longs as int),
        edges_in_range(edges@, (lats * longs) as nat),
{
    let mut edges: Vec<(usize, usize)> = Vec::new();
    if lats == 0 {
        assert(edges@ =~= sphere_edges_spec(lats as int, longs as int));
        proof {
            lemma_sphere_edges_in_range(lats as int, longs as int);
        }
        return edges;
    }
    let mut i: usize = 0;
    let mut idx: usize = 0;
    let ghost above: int = (lats - 1) * longs;
    proof {
        lemma_sphere_edges_in_range(lats as int, longs as int);
        assert(0 * longs == 0) by (nonlinear_arith);
        assert(above + longs == lats * longs && 0 <= above) by (nonlinear_arith)
            requires
                above == (lats - 1) * longs,
                lats >= 1,
                longs >= 0,
        ;
        assert(edges@ =~= sphere_edges_before(lats as int, longs as int, 0));
    }
    while i < lats
        invariant
            i <= lats,
            lats >= 1,
            lats * longs <= usize::MAX,
            above == (lats - 1) * longs,
            above + longs == lats * longs,
            0 <= above,
            idx == i * longs,
            edges@ == sphere_edges_before(
                lats as int,
                longs as int,
                if i < lats - 1 {
                    2 * idx
                } else {
                    idx + above
                },
            ),
        decreases lats - i,
    {
        let mut j: usize = 0;
        proof {
            assert(i * longs + longs <= lats * longs) by (nonlinear_arith)
                requires
                    i < lats,
                    longs >= 0,
            ;
            assert((i + 1) * longs == i * longs + longs) by (nonlinear_arith);
            if i < lats - 1 {
                assert(i * longs + longs <= above) by (nonlinear_arith)
                    requires
                        i < lats - 1,
                        longs >= 0,
                        above == (lats - 1) * longs,
                ;
            }
        }
        while j < longs
            invariant
                i < lats,
                j <= longs,
                lats * longs <= usize::MAX,
                above == (lats - 1) * longs,
                above + longs == lats * longs,
                0 <= above,
                i * longs + longs <= lats * longs,
                i < lats - 1 ==> i * longs + longs <= above,
                i == lats - 1 ==> i * longs == above,
                idx == i * longs + j,
                edges@ == sphere_edges_before(
                    lats as int,
                    longs as int,
                    if i < lats - 1 {
                        2 * idx
                    } else {
                        idx + above
                    },
                ),
            decreases longs - j,
        {
            let ghost pos: int = if i < lats - 1 {
                2 * idx
            } else {
                idx + above
            };
            proof {
                lemma_ring_next(longs as int, i as int, j as int);
            }
            if i < lats - 1 {
                edges.push((idx, idx + longs));
            }
            let next_j: usize = (j + 1) % longs;
            let next: usize = i * longs + next_j;
            edges.push((idx, next));
            proof {
                assert(next == ring_next(idx as int, longs as int));
                if i < lats - 1 {
                    assert(sphere_edge(lats as int, longs as int, pos) == (
                        idx,
                        (idx + longs) as usize,
                    ));
                    assert(sphere_edge(lats as int, longs as int, pos + 1) == (idx, next));
                    assert(edges@ =~= sphere_edges_before(lats as int, longs as int, pos + 2));
                } else {
                    assert(sphere_edge(lats as int, longs as int, pos) == (idx, next));
                    assert(edges@ =~= sphere_edges_before(lats as int, longs as int, pos + 1));
                }
            }
            j = j + 1;
            idx = idx + 1;
        }
        i = i + 1;
    }
    edges
}

/// Returns the vertices of a sphere, ring by ring: one ring for each
/// latitude in `lats`, with one vertex for each longitude in `longs`.
pub fn sphere_vertices(radius: i32, lats: &[Turn], longs: &[Turn]) -> (vertices: Vec<Point3>)
    requires
        lats@.len() * longs@.len() <= usize::MAX,
    ensures
        vertices@.len() == lats@.len() * longs@.len(),
        forall|i: int, j: int|
            0 <= i < lats@.len() && 0 <= j < longs@.len() ==> #[trigger] vertices@[cell_index(
                longs@.len() as int,
                i,
                j,
            )] == sphere_point_spec(radius as int, lats@[i], longs@[j]),
{
    let mut vertices: Vec<Point3> = Vec::new();
    let mut i: usize = 0;
    proof {
        assert(0 * longs@.len() == 0) by (nonlinear_arith);
    }
    while i < lats.len()
        invariant
            i <= lats@.len(),
            vertices@.len() == i * longs@.len(),
            forall|a: int, b: int|
                0 <= a < i && 0 <= b < longs@.len() ==> #[trigger] vertices@[cell_index(
                    longs@.len() as int,
                    a,
                    b,
                )] == sphere_point_spec(radius as int, lats@[a], longs@[b]),
        decreases lats@.len() - i,
    {
        let lat: Turn = lats[i];
        let ring: i32 = fixed_mul(radius, lat.cos);
        let y: i32 = fixed_mul(radius, lat.sin);
        let mut j: usize = 0;
        while j < longs.len()
            invariant
                i < lats@.len(),
                j <= longs@.len(),
                lat == lats@[i as int],
                ring == fixed_mul_spec(radius as int, lat.cos as int),
                y == fixed_mul_spec(radius as int, lat.sin as int),
                vertices@.len() == i * longs@.len() + j,
                forall|a: int, b: int|
                    (0 <= a < i && 0 <= b < longs@.len()) || (a == i && 0 <= b < j)
                        ==> #[trigger] vertices@[cell_index(longs@.len() as int, a, b)]
                        == sphere_point_spec(radius as int, lats@[a], longs@[b]),
            decreases longs@.len() - j,
        {
            let lon: Turn = longs[j];
            let ghost before = vertices@;
            vertices.push(Point3 { x: fixed_mul(ring, lon.cos), y, z: fixed_mul(ring, lon.sin) });
            proof {
                assert forall|a: int, b: int|
                    (0 <= a < i && 0 <= b < longs@.len()) || (a == i && 0 <= b < j + 1) implies #[trigger] vertices@[cell_index(
                    longs@.len() as int,
                    a,
                    b,
                )] == sphere_point_spec(radius as int, lats@[a], longs@[b]) by {
                    if a < i {
                        lemma_cell_index(longs@.len() as int, i as int, a, b);
                        assert(longs@.len() * i == i * longs@.len()) by (nonlinear_arith);
                        assert(vertices@[cell_index(longs@.len() as int, a, b)] == before[cell_index(
                            longs@.len() as int,
                            a,
                            b,
                        )]);
                    } else if b < j {
                        assert(vertices@[cell_index(longs@.len() as int, a, b)] == before[cell_index(
                            longs@.len() as int,
                            a,
                            b,
                        )]);
                    }
                }
            }
            j = j + 1;
        }
        proof {
            assert((i + 1) * longs@.len() == i * longs@.len() + longs@.len()) by (nonlinear_arith);
        }
        i = i + 1;
    }
    vertices
}

} // verus!
