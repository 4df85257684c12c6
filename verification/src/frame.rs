//! The frame builder: clears the buffers and draws the sphere and then the
//! solids, edge by edge.

use vstd::prelude::*;
use crate::config::{CAMERA_DISTANCE, camera_distance};
use crate::fixed::{round_ratio, div_round};
use crate::grid::Grid;
use crate::project::{project_vertex, screen_x, screen_y};
use crate::raster::{DEPTH_FLOOR, Line, draw_line, drawn_depth, drawn_frame, line_steps};
use crate::scene::{
    Solid, Turn, check_edges, edges_in_range, place, place_spec, placed_spec, orbit_offset,
    orbit_offset_spec,
};
use crate::shade::{edge_intensity, glyph_spec, intensity_spec};
use crate::vector::{Point3, edge_vector, edge_vector_spec};

verus! {

/// What the two buffers hold: the characters of the frame and the depths
/// behind them, both row by row.
pub struct Canvas {
    pub frame: Seq<char>,
    pub depth: Seq<i64>,
}

/// No point lies in the plane of the camera, where projection has no
/// meaning.
pub open spec fn in_view(points: Seq<Point3>) -> bool {
    forall|i: int| 0 <= i < points.len() ==> (#[trigger] points[i]).z + camera_distance() != 0
}

/// The depth at which an edge is drawn: the mean of the depths of its ends.
pub open spec fn edge_depth_spec(z0: int, z1: int) -> int {
    round_ratio(z0 + z1, 2)
}

/// The line on the canvas between the projections of two points.
pub open spec fn edge_line(from: Point3, to: Point3) -> Line {
    Line {
        x0: screen_x(from.x as int, from.z as int),
        y0: screen_y(from.y as int, from.z as int),
        x1: screen_x(to.x as int, to.z as int),
        y1: screen_y(to.y as int, to.z as int),
    }
}

/// The canvas after one edge has been drawn. The vertices stand at `placed`;
/// the edge is lit as it lies in the solid at rest, between the same
/// vertices of `base`.
pub open spec fn edge_drawn(
    c: Canvas,
    cols: int,
    rows: int,
    base: Seq<Point3>,
    placed: Seq<Point3>,
    edge: (usize, usize),
    light: Point3,
) -> Canvas {
    let from = edge.0 as int;
    let to = edge.1 as int;
    let l = edge_line(placed[from], placed[to]);
    let z = edge_depth_spec(placed[from].z as int, placed[to].z as int) as i32;
    let glyph = glyph_spec(intensity_spec(edge_vector_spec(base[from], base[to]), light));
    Canvas {
        frame: drawn_frame(c.frame, c.depth, cols, rows, l, z, glyph, line_steps(l) + 1),
        depth: drawn_depth(c.depth, cols, rows, l, z, line_steps(l) + 1),
    }
}

/// The canvas after the first `n` of `edges` have been drawn, one after
/// the other.
pub open spec fn edges_drawn(
    c: Canvas,
    cols: int,
    rows: int,
    base: Seq<Point3>,
    placed: Seq<Point3>,
    edges: Seq<(usize, usize)>,
    light: Point3,
    n: nat,
) -> Canvas
    decreases n,
{
    if n == 0 {
        c
    } else {
        edge_drawn(
            edges_drawn(c, cols, rows, base, placed, edges, light, (n - 1) as nat),
            cols,
            rows,
            base,
            placed,
            edges[n - 1],
            light,
        )
    }
}

/// The canvas after a solid has been drawn that has turned by `turn` and
/// whose centre is at `offset`.
pub open spec fn solid_drawn(
    c: Canvas,
    cols: int,
    rows: int,
    solid: Solid,
    turn: Turn,
    offset: Point3,
    light: Point3,
) -> Canvas {
    edges_drawn(
        c,
        cols,
        rows,
        solid.vertices@,
        placed_spec(solid.vertices@, turn, offset),
        solid.edges@,
        light,
        solid.edges@.len(),
    )
}

/// The canvas after the first `n` of `solids` have been drawn, in their
/// order, each turned by its own angle.
pub open spec fn solids_drawn(
    c: Canvas,
    cols: int,
    rows: int,
    solids: Seq<Solid>,
    turns: Seq<Turn>,
    offset: Point3,
    light: Point3,
    n: nat,
) -> Canvas
    decreases n,
{
    if n == 0 {
        c
    } else {
        solid_drawn(
            solids_drawn(c, cols, rows, solids, turns, offset, light, (n - 1) as nat),
            cols,
            rows,
            solids[n - 1],
            turns[n - 1],
            offset,
            light,
        )
    }
}

/// An empty canvas of `n` cells: blank, and nothing in front of anything.
pub open spec fn blank_canvas(n: nat) -> Canvas {
    Canvas { frame: Seq::new(n, |i: int| ' '), depth: Seq::new(n, |i: int| DEPTH_FLOOR) }
}

/// The whole frame: on an empty canvas the sphere is drawn first, as it
/// stands, and then the solids, each turned by its angle and moved to the
/// place that the orbit has reached.
pub open spec fn frame_spec(
    cols: int,
    rows: int,
    sphere_vertices: Seq<Point3>,
    sphere_edges: Seq<(usize, usize)>,
    solids: Seq<Solid>,
    turns: Seq<Turn>,
    orbit: Turn,
    light: Point3,
) -> Canvas {
    let sphere = edges_drawn(
        blank_canvas((cols * rows) as nat),
        cols,
        rows,
        sphere_vertices,
        sphere_vertices,
        sphere_edges,
        light,
        sphere_edges.len(),
    );
    solids_drawn(sphere, cols, rows, solids, turns, orbit_offset_spec(orbit), light, solids.len())
}

/// Every solid is well formed and, turned and moved, stays out of the plane
/// of the camera.
pub open spec fn solids_in_view(solids: Seq<Solid>, turns: Seq<Turn>, offset: Point3) -> bool {
    forall|k: int|
        0 <= k < solids.len() ==> (#[trigger] solids[k]).wf() && in_view(
            placed_spec(solids[k].vertices@, turns[k], offset),
        )
}

/// Drawing edges keeps the size of the canvas.
pub proof fn lemma_edges_drawn_len(
    c: Canvas,
    cols: int,
    rows: int,
    base: Seq<Point3>,
    placed: Seq<Point3>,
    edges: Seq<(usize, usize)>,
    light: Point3,
    n: nat,
)
    ensures
        edges_drawn(c, cols, rows, base, placed, edges, light, n).frame.len() == c.frame.len(),
        edges_drawn(c, cols, rows, base, placed, edges, light, n).depth.len() == c.depth.len(),
    decreases n,
{
    if n > 0 {
        lemma_edges_drawn_len(c, cols, rows, base, placed, edges, light, (n - 1) as nat);
    }
}

/// Wherever the depth buffer is empty the frame is blank.
pub open spec fn blank_where_empty(c: Canvas) -> bool {
    &&& c.frame.len() == c.depth.len()
    &&& forall|i: int| 0 <= i < c.depth.len() && c.depth[i] == DEPTH_FLOOR ==> c.frame[i] == ' '
}

/// Drawing edges never leaves a mark on a cell whose depth stays empty.
pub proof fn lemma_edges_keep_blank_where_empty(
    c: Canvas,
    cols: int,
    rows: int,
    base: Seq<Point3>,
    placed: Seq<Point3>,
    edges: Seq<(usize, usize)>,
    light: Point3,
    n: nat,
)
    requires
        blank_where_empty(c),
    ensures
        blank_where_empty(edges_drawn(c, cols, rows, base, placed, edges, light, n)),
    decreases n,
{
    if n > 0 {
        lemma_edges_keep_blank_where_empty(
            c,
            cols,
            rows,
            base,
            placed,
            edges,
            light,
            (n - 1) as nat,
        );
    }
}

/// Drawing solids never leaves a mark on a cell whose depth stays empty.
pub proof fn lemma_solids_keep_blank_where_empty(
    c: Canvas,
    cols: int,
    rows: int,
    solids: Seq<Solid>,
    turns: Seq<Turn>,
    offset: Point3,
    light: Point3,
    n: nat,
)
    requires
        blank_where_empty(c),
    ensures
        blank_where_empty(solids_drawn(c, cols, rows, solids, turns, offset, light, n)),
    decreases n,
{
    if n > 0 {
        lemma_solids_keep_blank_where_empty(
            c,
            cols,
            rows,
            solids,
            turns,
            offset,
            light,
            (n - 1) as nat,
        );
        let before = solids_drawn(c, cols, rows, solids, turns, offset, light, (n - 1) as nat);
        let solid = solids[n - 1];
        lemma_edges_keep_blank_where_empty(
            before,
            cols,
            rows,
            solid.vertices@,
            placed_spec(solid.vertices@, turns[n - 1], offset),
            solid.edges@,
            light,
            solid.edges@.len(),
        );
    }
}

/// In a finished frame every cell that no line has reached is blank.
pub proof fn lemma_frame_blank_where_empty(
    cols: int,
    rows: int,
    sphere_vertices: Seq<Point3>,
    sphere_edges: Seq<(usize, usize)>,
    solids: Seq<Solid>,
    turns: Seq<Turn>,
    orbit: Turn,
    light: Point3,
)
    ensures
        blank_where_empty(
            frame_spec(cols, rows, sphere_vertices, sphere_edges, solids, turns, orbit, light),
        ),
{
    let blank = blank_canvas((cols * rows) as nat);
    lemma_edges_keep_blank_where_empty(
        blank,
        cols,
        rows,
        sphere_vertices,
        sphere_vertices,
        sphere_edges,
        light,
        sphere_edges.len(),
    );
    let sphere = edges_drawn(
        blank,
        cols,
        rows,
        sphere_vertices,
        sphere_vertices,
        sphere_edges,
        light,
        sphere_edges.len(),
    );
    lemma_solids_keep_blank_where_empty(
        sphere,
        cols,
        rows,
        solids,
        turns,
        orbit_offset_spec(orbit),
        light,
        solids.len(),
    );
}

/// Returns the depth at which an edge is drawn whose ends have the depths
/// `z0` and `z1`.
pub fn edge_depth(z0: i32, z1: i32) -> (z: i32)
    ensures
        z == edge_depth_spec(z0 as int, z1 as int),
{
    div_round(z0 as i128 + z1 as i128, 2) as i32
}

/// Tells whether all of `points` stay out of the plane of the camera.
pub fn check_in_view(points: &Vec<Point3>) -> (ok: bool)
    ensures
        ok == in_view(points@),
{
    let mut i: usize = 0;
    while i < points.len()
        invariant
            i <= points@.len(),
            forall|k: int| 0 <= k < i ==> (#[trigger] points@[k]).z + camera_distance() != 0,
        decreases points@.len() - i,
    {
        if points[i].z as i64 + CAMERA_DISTANCE as i64 == 0 {
            return false;
        }
        i = i + 1;
    }
    true
}

/// Returns where the vertices of a solid stand when it has turned by `turn`
/// and its centre is at `offset`.
pub fn place_all(vertices: &Vec<Point3>, turn: Turn, offset: Point3) -> (placed: Vec<Point3>)
    ensures
        placed@ == placed_spec(vertices@, turn, offset),
{
    let mut placed: Vec<Point3> = Vec::new();
    let mut i: usize = 0;
    while i < vertices.len()
        invariant
            i <= vertices@.len(),
            placed@.len() == i,
            forall|k: int| 0 <= k < i ==> placed@[k] == place_spec(vertices@[k], turn, offset),
        decreases vertices@.len() - i,
    {
        placed.push(place(vertices[i], turn, offset));
        i = i + 1;
    }
    assert(placed@ =~= placed_spec(vertices@, turn, offset));
    placed
}

/// Returns the column and row at which each of `points` appears.
pub fn project_all(points: &Vec<Point3>) -> (projected: Vec<(i32, i32)>)
    requires
        in_view(points@),
    ensures
        projected@.len() == points@.len(),
        forall|i: int|
            0 <= i < points@.len() ==> (#[trigger] projected@[i]) == (
                screen_x(points@[i].x as int, points@[i].z as int) as i32,
                screen_y(points@[i].y as int, points@[i].z as int) as i32,
            ),
{
    let mut projected: Vec<(i32, i32)> = Vec::new();
    let mut i: usize = 0;
    while i < points.len()
        invariant
            i <= points@.len(),
            in_view(points@),
            projected@.len() == i,
            forall|k: int|
                0 <= k < i ==> (#[trigger] projected@[k]) == (
                    screen_x(points@[k].x as int, points@[k].z as int) as i32,
                    screen_y(points@[k].y as int, points@[k].z as int) as i32,
                ),
        decreases points@.len() - i,
    {
        let p: Point3 = points[i];
        projected.push(project_vertex(p.x, p.y, p.z));
        i = i + 1;
    }
    projected
}

/// Draws the edges of a wireframe whose vertices stand at `placed`. Each
/// edge is drawn at the mean depth of its ends, with the character for its
/// brightness under `light` as it lies between the same vertices of `base`.
pub fn draw_edges(
    screen: &mut Grid<char>,
    depth: &mut Grid<i64>,
    base: &Vec<Point3>,
    placed: &Vec<Point3>,
    edges: &Vec<(usize, usize)>,
    light: Point3,
)
    requires
        old(screen).wf(),
        old(depth).wf(),
        old(screen).same_shape(old(depth)),
        old(screen).cols() > 0,
        old(screen).rows() > 0,
        base@.len() == placed@.len(),
        edges_in_range(edges@, base@.len()),
        in_view(placed@),
    ensures
        final(screen).wf(),
        final(depth).wf(),
        final(screen).cols() == old(screen).cols(),
        final(screen).rows() == old(screen).rows(),
        final(depth).cols() == old(depth).cols(),
        final(depth).rows() == old(depth).rows(),
        (Canvas { frame: final(screen)@, depth: final(depth)@ }) == edges_drawn(
            Canvas { frame: old(screen)@, depth: old(depth)@ },
            old(screen).cols() as int,
            old(screen).rows() as int,
            base@,
            placed@,
            edges@,
            light,
            edges@.len(),
        ),
{
    let projected: Vec<(i32, i32)> = project_all(placed);
    let ghost start = Canvas { frame: screen@, depth: depth@ };
    let ghost cols = screen.cols() as int;
    let ghost rows = screen.rows() as int;
    let mut k: usize = 0;
    while k < edges.len()
        invariant
            k <= edges@.len(),
            screen.wf(),
            depth.wf(),
            screen.same_shape(depth),
            screen.cols() == cols == old(screen).cols(),
            screen.rows() == rows == old(screen).rows(),
            cols > 0,
            rows > 0,
            base@.len() == placed@.len(),
            edges_in_range(edges@, base@.len()),
            in_view(placed@),
            projected@.len() == placed@.len(),
            forall|i: int|
                0 <= i < placed@.len() ==> (#[trigger] projected@[i]) == (
                    screen_x(placed@[i].x as int, placed@[i].z as int) as i32,
                    screen_y(placed@[i].y as int, placed@[i].z as int) as i32,
                ),
            (Canvas { frame: screen@, depth: depth@ }) == edges_drawn(
                start,
                cols,
                rows,
                base@,
                placed@,
                edges@,
                light,
                k as nat,
            ),
        decreases edges@.len() - k,
    {
        let edge: (usize, usize) = edges[k];
        let from: (i32, i32) = projected[edge.0];
        let to: (i32, i32) = projected[edge.1];
        let z: i32 = edge_depth(placed[edge.0].z, placed[edge.1].z);
        let intensity: i32 = edge_intensity(edge_vector(base[edge.0], base[edge.1]), light);
        draw_line(screen, depth, from.0, from.1, to.0, to.1, z, intensity);
        k = k + 1;
    }
}

/// Draws the sphere, which neither turns nor moves.
pub fn render_sphere(
    screen: &mut Grid<char>,
    depth: &mut Grid<i64>,
    vertices: &Vec<Point3>,
    edges: &Vec<(usize, usize)>,
    light: Point3,
)
    requires
        old(screen).wf(),
        old(depth).wf(),
        old(screen).same_shape(old(depth)),
        old(screen).cols() > 0,
        old(screen).rows() > 0,
        edges_in_range(edges@, vertices@.len()),
        in_view(vertices@),
    ensures
        final(screen).wf(),
        final(depth).wf(),
        final(screen).cols() == old(screen).cols(),
        final(screen).rows() == old(screen).rows(),
        final(depth).cols() == old(depth).cols(),
        final(depth).rows() == old(depth).rows(),
        (Canvas { frame: final(screen)@, depth: final(depth)@ }) == edges_drawn(
            Canvas { frame: old(screen)@, depth: old(depth)@ },
            old(screen).cols() as int,
            old(screen).rows() as int,
            vertices@,
            vertices@,
            edges@,
            light,
            edges@.len(),
        ),
{
    draw_edges(screen, depth, vertices, vertices, edges, light);
}

/// Draws a solid that has turned by `turn` and whose centre is at `offset`.
pub fn render_solid(
    screen: &mut Grid<char>,
    depth: &mut Grid<i64>,
    solid: &Solid,
    turn: Turn,
    offset: Point3,
    light: Point3,
)
    requires
        old(screen).wf(),
        old(depth).wf(),
        old(screen).same_shape(old(depth)),
        old(screen).cols() > 0,
        old(screen).rows() > 0,
        solid.wf(),
        in_view(placed_spec(solid.vertices@, turn, offset)),
    ensures
        final(screen).wf(),
        final(depth).wf(),
        final(screen).cols() == old(screen).cols(),
        final(screen).rows() == old(screen).rows(),
        final(depth).cols() == old(depth).cols(),
        final(depth).rows() == old(depth).rows(),
        (Canvas { frame: final(screen)@, depth: final(depth)@ }) == solid_drawn(
            Canvas { frame: old(screen)@, depth: old(depth)@ },
            old(screen).cols() as int,
            old(screen).rows() as int,
            *solid,
            turn,
            offset,
            light,
        ),
{
    let placed: Vec<Point3> = place_all(&solid.vertices, turn, offset);
    draw_edges(screen, depth, &solid.vertices, &placed, &solid.edges, light);
}

/// Tells whether a frame can be drawn: whether the sphere's edges join
/// vertices of the sphere, every solid is well formed, and no vertex, where
/// the frame puts it, lies in the plane of the camera.
pub fn check_frame(
    sphere_vertices: &Vec<Point3>,
    sphere_edges: &Vec<(usize, usize)>,
    solids: &Vec<Solid>,
    turns: &Vec<Turn>,
    orbit: Turn,
) -> (ok: bool)
    requires
        turns@.len() == solids@.len(),
    ensures
        ok == (edges_in_range(sphere_edges@, sphere_vertices@.len()) && in_view(sphere_vertices@)
            && solids_in_view(solids@, turns@, orbit_offset_spec(orbit))),
{
    if !check_edges(sphere_edges.as_slice(), sphere_vertices.len()) {
        return false;
    }
    if !check_in_view(sphere_vertices) {
        return false;
    }
    let offset: Point3 = orbit_offset(orbit);
    let mut k: usize = 0;
    while k < solids.len()
        invariant
            k <= solids@.len(),
            turns@.len() == solids@.len(),
            offset == orbit_offset_spec(orbit),
            forall|i: int|
                0 <= i < k ==> (#[trigger] solids@[i]).wf() && in_view(
                    placed_spec(solids@[i].vertices@, turns@[i], offset),
                ),
        decreases solids@.len() - k,
    {
        let solid: &Solid = &solids[k];
        if !check_edges(solid.edges.as_slice(), solid.vertices.len()) {
            return false;
        }
        let placed: Vec<Point3> = place_all(&solid.vertices, turns[k], offset);
        if !check_in_view(&placed) {
            return false;
        }
        k = k + 1;
    }
    true
}

/// Builds a frame: clears both buffers, draws the sphere and then the
/// solids in their order, each turned by its own angle and all moved to the
/// place that the orbit has reached.
pub fn render_frame(
    screen: &mut Grid<char>,
    depth: &mut Grid<i64>,
    sphere_vertices: &Vec<Point3>,
    sphere_edges: &Vec<(usize, usize)>,
    solids: &Vec<Solid>,
    turns: &Vec<Turn>,
    orbit: Turn,
    light: Point3,
)
    requires
        old(screen).wf(),
        old(depth).wf(),
        old(screen).same_shape(old(depth)),
        old(screen).cols() > 0,
        old(screen).rows() > 0,
        turns@.len() == solids@.len(),
        edges_in_range(sphere_edges@, sphere_vertices@.len()),
        in_view(sphere_vertices@),
        solids_in_view(solids@, turns@, orbit_offset_spec(orbit)),
    ensures
        final(screen).wf(),
        final(depth).wf(),
        final(screen).cols() == old(screen).cols(),
        final(screen).rows() == old(screen).rows(),
        final(depth).cols() == old(depth).cols(),
        final(depth).rows() == old(depth).rows(),
        (Canvas { frame: final(screen)@, depth: final(depth)@ }) == frame_spec(
            old(screen).cols() as int,
            old(screen).rows() as int,
            sphere_vertices@,
            sphere_edges@,
            solids@,
            turns@,
            orbit,
            light,
        ),
{
    proof {
        screen.lemma_len();
        depth.lemma_len();
    }
    screen.fill(' ');
    depth.fill(DEPTH_FLOOR);
    let ghost cols = screen.cols() as int;
    let ghost rows = screen.rows() as int;
    assert((Canvas { frame: screen@, depth: depth@ }) == blank_canvas((cols * rows) as nat));
    render_sphere(screen, depth, sphere_vertices, sphere_edges, light);
    let ghost sphere = Canvas { frame: screen@, depth: depth@ };
    let offset: Point3 = orbit_offset(orbit);
    let mut k: usize = 0;
    while k < solids.len()
        invariant
            k <= solids@.len(),
            turns@.len() == solids@.len(),
            screen.wf(),
            depth.wf(),
            screen.same_shape(depth),
            screen.cols() == cols == old(screen).cols(),
            screen.rows() == rows == old(screen).rows(),
            cols > 0,
            rows > 0,
            offset == orbit_offset_spec(orbit),
            solids_in_view(solids@, turns@, offset),
            (Canvas { frame: screen@, depth: depth@ }) == solids_drawn(
                sphere,
                cols,
                rows,
                solids@,
                turns@,
                offset,
                light,
                k as nat,
            ),
        decreases solids@.len() - k,
    {
        render_solid(screen, depth, &solids[k], turns[k], offset, light);
        k = k + 1;
    }
}

} // verus!
