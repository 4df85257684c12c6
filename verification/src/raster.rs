//! The rasteriser: draws a line of one character into the frame buffer,
//! cell by cell, wherever the line is nearer than what the depth buffer
//! holds.
//!
//! The cells of a line are given in closed form: the line advances one cell
//! per step along the axis on which it is longer, and on the other axis it
//! follows the exact line rounded to the nearest cell, a tie going to the
//! cell nearer the start. Coordinates outside the grid wrap around its
//! edges.

use vstd::prelude::*;
use vstd::arithmetic::div_mod::{
    lemma_mod_bound, lemma_small_mod, lemma_mod_add_multiples_vanish,
    lemma_mod_sub_multiples_vanish, lemma_mod_self_0, lemma_fundamental_div_mod,
    lemma_fundamental_div_mod_converse_mod,
};
use crate::grid::{Grid, cell_index, lemma_cell_index};
use crate::shade::{glyph_spec, intensity_glyph};

verus! {

/// What an empty cell of the depth buffer holds: less than any depth a line
/// can have.
pub const DEPTH_FLOOR: i64 = i64::MIN;

/// A line between two cells, given by their columns `x` and rows `y`.
pub struct Line {
    pub x0: int,
    pub y0: int,
    pub x1: int,
    pub y1: int,
}

/// The line from `(x0, y0)` to `(x1, y1)`.
pub open spec fn line(x0: i32, y0: i32, x1: i32, y1: i32) -> Line {
    Line { x0: x0 as int, y0: y0 as int, x1: x1 as int, y1: y1 as int }
}

/// The distance between `a` and `b`.
pub open spec fn span(a: int, b: int) -> int {
    if a < b {
        b - a
    } else {
        a - b
    }
}

/// The number of steps that a line takes; it visits one cell more.
pub open spec fn line_steps(l: Line) -> int {
    if span(l.x0, l.x1) >= span(l.y0, l.y1) {
        span(l.x0, l.x1)
    } else {
        span(l.y0, l.y1)
    }
}

/// The coordinate `n` cells away from `from` in the direction of `to`.
pub open spec fn toward(from: int, to: int, n: int) -> int {
    if from < to {
        from + n
    } else {
        from - n
    }
}

/// How far a line has moved along its shorter axis after `k` steps, where
/// it covers `a` cells on that axis and `b >= a` on the longer one: the
/// fraction `k * a / b` rounded to the nearest integer, a tie going down.
pub open spec fn minor_offset(k: int, a: int, b: int) -> int {
    (2 * (k * a) + b - 1) / (2 * b)
}

/// The cell that a line visits after `k` steps, as column and row.
pub open spec fn line_point(l: Line, k: int) -> (int, int) {
    let dx = span(l.x0, l.x1);
    let dy = span(l.y0, l.y1);
    if dx >= dy {
        if dx == 0 {
            (l.x0, l.y0)
        } else {
            (toward(l.x0, l.x1, k), toward(l.y0, l.y1, minor_offset(k, dy, dx)))
        }
    } else {
        (toward(l.x0, l.x1, minor_offset(k, dx, dy)), toward(l.y0, l.y1, k))
    }
}

/// The coordinate `v` wrapped into a range of `n` cells: leaving at one
/// edge means coming back at the opposite one.
pub open spec fn wrap(v: int, n: int) -> int {
    v % n
}

/// The place, among the cells of a grid of `cols` by `rows` cells, of the
/// cell that a line visits after `k` steps.
pub open spec fn line_cell(cols: int, rows: int, l: Line, k: int) -> int {
    let p = line_point(l, k);
    cell_index(cols, wrap(p.1, rows), wrap(p.0, cols))
}

/// One of the first `n` cells that the line visits is `cell`.
pub open spec fn line_covers(cols: int, rows: int, l: Line, n: int, cell: int) -> bool {
    exists|k: int| 0 <= k < n && #[trigger] line_cell(cols, rows, l, k) == cell
}

/// The depth buffer after the first `n` cells of a line at depth `z` have
/// been drawn into `depth`: a cell that the line visits, and where it is
/// nearer than what the cell held, holds `z`.
pub open spec fn drawn_depth(depth: Seq<i64>, cols: int, rows: int, l: Line, z: i32, n: int) -> Seq<
    i64,
> {
    Seq::new(
        depth.len(),
        |c: int|
            if line_covers(cols, rows, l, n, c) && z > depth[c] {
                z as i64
            } else {
                depth[c]
            },
    )
}

/// The frame buffer after the first `n` cells of a line at depth `z` have
/// been drawn into `frame` with `glyph`, where `depth` is the depth buffer
/// before the line: a cell that the line visits, and where it is nearer than
/// what the cell's depth was, shows `glyph`.
pub open spec fn drawn_frame(
    frame: Seq<char>,
    depth: Seq<i64>,
    cols: int,
    rows: int,
    l: Line,
    z: i32,
    glyph: char,
    n: int,
) -> Seq<char> {
    Seq::new(
        frame.len(),
        |c: int|
            if line_covers(cols, rows, l, n, c) && z > depth[c] {
                glyph
            } else {
                frame[c]
            },
    )
}

proof fn lemma_div_unique(n: int, d: int, q: int)
    requires
        d > 0,
        q * d <= n < q * d + d,
    ensures
        n / d == q,
{
    assert(n / d == q) by (nonlinear_arith)
        requires
            d > 0,
            q * d <= n < q * d + d,
    ;
}

/// One step along a line. With `t` as below, the line moves on its shorter
/// axis in this step if and only if `t > 0`.
proof fn lemma_minor_step(k: int, a: int, b: int)
    requires
        0 <= k,
        0 <= a <= b,
        0 < b,
    ensures
        ({
            let m = minor_offset(k, a, b);
            let t = 2 * (k * a) + 2 * a - 2 * (m * b) - b;
            &&& 0 <= m <= k
            &&& (k + 1) * a == k * a + a
            &&& (m + 1) * b == m * b + b
            &&& 2 * a - 2 * b < t <= 2 * a
            &&& (a == b ==> t == a)
            &&& minor_offset(k + 1, a, b) == (if t > 0 {
                m + 1
            } else {
                m
            })
        }),
{
    let p = k * a;
    let n = 2 * p + b - 1;
    let d = 2 * b;
    let m = n / d;
    assert(m == minor_offset(k, a, b));
    assert(0 <= p <= k * b && (k + 1) * a == p + a) by (nonlinear_arith)
        requires
            p == k * a,
            0 <= k,
            0 <= a <= b,
    ;
    assert(m * d <= n < m * d + d && m * d == 2 * (m * b) && (m + 1) * b == m * b + b && 0 <= m)
        by (nonlinear_arith)
        requires
            m == n / d,
            d == 2 * b,
            b > 0,
            n >= 0,
    ;
    let q = m * b;
    let t = 2 * p + 2 * a - 2 * q - b;
    assert(m <= k) by (nonlinear_arith)
        requires
            2 * (m * b) <= 2 * p + b - 1,
            p <= k * b,
            b > 0,
    ;
    if a == b {
        assert(k * d <= n < k * d + d) by (nonlinear_arith)
            requires
                n == 2 * (k * b) + b - 1,
                d == 2 * b,
                b > 0,
        ;
        lemma_div_unique(n, d, k);
    }
    let n1 = 2 * ((k + 1) * a) + b - 1;
    assert(n1 == n + 2 * a);
    if t > 0 {
        assert((m + 1) * d <= n1 < (m + 1) * d + d) by (nonlinear_arith)
            requires
                (m + 1) * b == q + b,
                d == 2 * b,
                2 * q + 2 * b <= n1 < 2 * q + 4 * b,
        ;
        lemma_div_unique(n1, d, m + 1);
    } else {
        assert(m * d <= n1 < m * d + d) by (nonlinear_arith)
            requires
                q == m * b,
                d == 2 * b,
                2 * q <= n1 < 2 * q + 2 * b,
        ;
        lemma_div_unique(n1, d, m);
    }
}

/// After all its steps a line has covered its shorter axis, and before it
/// has taken any it has not moved.
proof fn lemma_minor_ends(a: int, b: int)
    requires
        0 <= a <= b,
        0 < b,
    ensures
        minor_offset(0, a, b) == 0,
        minor_offset(b, a, b) == a,
{
    assert(0 * a == 0) by (nonlinear_arith);
    lemma_div_unique(b - 1, 2 * b, 0);
    let n = 2 * (b * a) + b - 1;
    assert(a * (2 * b) <= n < a * (2 * b) + 2 * b) by (nonlinear_arith)
        requires
            n == 2 * (b * a) + b - 1,
            b > 0,
    ;
    lemma_div_unique(n, 2 * b, a);
}

/// A line starts at its first end and arrives at its second.
pub proof fn lemma_line_ends(l: Line)
    ensures
        line_point(l, 0) == (l.x0, l.y0),
        line_point(l, line_steps(l)) == (l.x1, l.y1),
{
    let dx = span(l.x0, l.x1);
    let dy = span(l.y0, l.y1);
    if dx >= dy {
        if dx > 0 {
            lemma_minor_ends(dy, dx);
        }
    } else {
        lemma_minor_ends(dx, dy);
    }
}

/// The direction in which a coordinate changes on the way from `from` to
/// `to`: 1, -1, or 0 where the two are equal.
pub open spec fn direction(from: int, to: int) -> int {
    if from < to {
        1
    } else if from > to {
        -1
    } else {
        0
    }
}

/// Every step of a line leads to a neighbouring cell: one cell along the
/// longer axis, and none or one along the shorter, each in the direction
/// from the first end to the second. The line never leaves the rectangle
/// between its ends.
pub proof fn lemma_line_step(l: Line, k: int)
    requires
        0 <= k < line_steps(l),
    ensures
        ({
            let p = line_point(l, k);
            let q = line_point(l, k + 1);
            &&& (q.0 == p.0 || q.0 == p.0 + direction(l.x0, l.x1))
            &&& (q.1 == p.1 || q.1 == p.1 + direction(l.y0, l.y1))
            &&& (span(l.x0, l.x1) >= span(l.y0, l.y1) ==> q.0 == p.0 + direction(l.x0, l.x1))
            &&& (span(l.x0, l.x1) <= span(l.y0, l.y1) ==> q.1 == p.1 + direction(l.y0, l.y1))
            &&& span(l.x0, p.0) + span(p.0, l.x1) == span(l.x0, l.x1)
            &&& span(l.y0, p.1) + span(p.1, l.y1) == span(l.y0, l.y1)
            &&& span(l.x0, q.0) + span(q.0, l.x1) == span(l.x0, l.x1)
            &&& span(l.y0, q.1) + span(q.1, l.y1) == span(l.y0, l.y1)
        }),
{
    let dx = span(l.x0, l.x1);
    let dy = span(l.y0, l.y1);
    if dx >= dy {
        lemma_minor_step(k, dy, dx);
        lemma_minor_reach(k, dy, dx);
    } else {
        lemma_minor_step(k, dx, dy);
        lemma_minor_reach(k, dx, dy);
    }
}

/// Before its last step a line has not passed its second end on the
/// shorter axis.
proof fn lemma_minor_reach(k: int, a: int, b: int)
    requires
        0 <= k < b,
        0 <= a <= b,
    ensures
        minor_offset(k, a, b) <= a,
        minor_offset(k + 1, a, b) <= a,
        minor_offset(k, a, b) < a || minor_offset(k + 1, a, b) == minor_offset(k, a, b),
{
    lemma_minor_step(k, a, b);
    let m = minor_offset(k, a, b);
    let t = 2 * (k * a) + 2 * a - 2 * (m * b) - b;
    if t > 0 {
        assert(m < a) by (nonlinear_arith)
            requires
                2 * (k * a) + 2 * a - 2 * (m * b) - b > 0,
                0 <= k < b,
                0 <= a <= b,
                0 <= m,
        ;
    } else {
        let n = 2 * (k * a) + b - 1;
        assert(n < (a + 1) * (2 * b)) by (nonlinear_arith)
            requires
                n == 2 * (k * a) + b - 1,
                0 <= k < b,
                0 <= a <= b,
        ;
        assert(m <= a) by (nonlinear_arith)
            requires
                m == n / (2 * b),
                n < (a + 1) * (2 * b),
                b > 0,
        ;
    }
}

/// A line visits no cell twice: its cells are as many as its steps and one
/// more.
pub proof fn lemma_line_points_distinct(l: Line, j: int, k: int)
    requires
        0 <= j < k <= line_steps(l),
    ensures
        line_point(l, j) != line_point(l, k),
{
}

/// Wrapping keeps a coordinate inside the range and forgets whole turns
/// around it; the coordinate one past the last cell is the first cell.
pub proof fn lemma_wrap(v: int, n: int)
    requires
        n > 0,
    ensures
        0 <= wrap(v, n) < n,
        0 <= v < n ==> wrap(v, n) == v,
        wrap(v + n, n) == wrap(v, n),
        wrap(v - n, n) == wrap(v, n),
        wrap(n, n) == 0,
{
    lemma_mod_bound(v, n);
    if 0 <= v < n {
        lemma_small_mod(v as nat, n as nat);
    }
    lemma_mod_add_multiples_vanish(v, n);
    lemma_mod_sub_multiples_vanish(v, n);
    lemma_mod_self_0(n);
    assert(v + n == n + v && v - n == -n + v);
}

/// The wrapped place of `v`, from the remainder of its opposite.
proof fn lemma_wrap_negative(v: int, n: int)
    requires
        n > 0,
    ensures
        wrap(v, n) == (if (-v) % n == 0 {
            0
        } else {
            n - (-v) % n
        }),
{
    let t = (-v) % n;
    let q = (-v) / n;
    lemma_fundamental_div_mod(-v, n);
    lemma_mod_bound(-v, n);
    if t == 0 {
        assert(v == (-q) * n + 0) by (nonlinear_arith)
            requires
                -v == n * q + t,
                t == 0,
        ;
        lemma_fundamental_div_mod_converse_mod(v, n, -q, 0);
    } else {
        assert(v == (-q - 1) * n + (n - t)) by (nonlinear_arith)
            requires
                -v == n * q + t,
        ;
        lemma_fundamental_div_mod_converse_mod(v, n, -q - 1, n - t);
    }
}

/// A line covers the cells it covered a step ago and the cell of the step.
proof fn lemma_covers_step(cols: int, rows: int, l: Line, n: int, cell: int)
    requires
        0 <= n,
    ensures
        line_covers(cols, rows, l, n + 1, cell) <==> (line_covers(cols, rows, l, n, cell)
            || line_cell(cols, rows, l, n) == cell),
{
    if line_covers(cols, rows, l, n + 1, cell) {
        let k = choose|k: int| 0 <= k < n + 1 && #[trigger] line_cell(cols, rows, l, k) == cell;
        if k < n {
            assert(line_covers(cols, rows, l, n, cell));
        }
    }
    if line_covers(cols, rows, l, n, cell) {
        let k = choose|k: int| 0 <= k < n && #[trigger] line_cell(cols, rows, l, k) == cell;
        assert(0 <= k < n + 1 && line_cell(cols, rows, l, k) == cell);
    }
    if line_cell(cols, rows, l, n) == cell {
        assert(0 <= n < n + 1 && line_cell(cols, rows, l, n) == cell);
    }
}

/// Drawing the next cell of a line takes the buffers from their state after
/// `n` cells to their state after `n + 1`.
proof fn lemma_draw_step(
    frame0: Seq<char>,
    depth0: Seq<i64>,
    cols: int,
    rows: int,
    l: Line,
    z: i32,
    glyph: char,
    n: int,
)
    requires
        0 <= n,
        frame0.len() == depth0.len(),
        0 <= line_cell(cols, rows, l, n) < depth0.len(),
    ensures
        ({
            let c = line_cell(cols, rows, l, n);
            let frame = drawn_frame(frame0, depth0, cols, rows, l, z, glyph, n);
            let depth = drawn_depth(depth0, cols, rows, l, z, n);
            &&& drawn_depth(depth0, cols, rows, l, z, n + 1) == (if z > depth[c] {
                depth.update(c, z as i64)
            } else {
                depth
            })
            &&& drawn_frame(frame0, depth0, cols, rows, l, z, glyph, n + 1) == (if z > depth[c] {
                frame.update(c, glyph)
            } else {
                frame
            })
        }),
{
    let c = line_cell(cols, rows, l, n);
    let frame = drawn_frame(frame0, depth0, cols, rows, l, z, glyph, n);
    let depth = drawn_depth(depth0, cols, rows, l, z, n);
    let next_depth = if z > depth[c] {
        depth.update(c, z as i64)
    } else {
        depth
    };
    let next_frame = if z > depth[c] {
        frame.update(c, glyph)
    } else {
        frame
    };
    assert forall|i: int| 0 <= i < depth0.len() implies next_depth[i] == drawn_depth(
        depth0,
        cols,
        rows,
        l,
        z,
        n + 1,
    )[i] && next_frame[i] == drawn_frame(frame0, depth0, cols, rows, l, z, glyph, n + 1)[i] by {
        lemma_covers_step(cols, rows, l, n, i);
    }
    assert(next_depth =~= drawn_depth(depth0, cols, rows, l, z, n + 1));
    assert(next_frame =~= drawn_frame(frame0, depth0, cols, rows, l, z, glyph, n + 1));
}

/// Before a line is drawn the buffers are as they were.
proof fn lemma_draw_none(
    frame0: Seq<char>,
    depth0: Seq<i64>,
    cols: int,
    rows: int,
    l: Line,
    z: i32,
    glyph: char,
)
    ensures
        drawn_depth(depth0, cols, rows, l, z, 0) == depth0,
        drawn_frame(frame0, depth0, cols, rows, l, z, glyph, 0) == frame0,
{
    assert(drawn_depth(depth0, cols, rows, l, z, 0) =~= depth0);
    assert(drawn_frame(frame0, depth0, cols, rows, l, z, glyph, 0) =~= frame0);
}

/// Every cell of a line lies inside the grid, whatever its ends are.
pub proof fn lemma_line_cell_in_grid(cols: int, rows: int, l: Line, k: int)
    requires
        cols > 0,
        rows > 0,
    ensures
        0 <= line_cell(cols, rows, l, k) < cols * rows,
{
    let p = line_point(l, k);
    lemma_wrap(p.0, cols);
    lemma_wrap(p.1, rows);
    lemma_cell_index(cols, rows, wrap(p.1, rows), wrap(p.0, cols));
}

/// Occlusion: a line that is nowhere nearer than what the depth buffer holds
/// along it leaves both buffers as they are.
pub proof fn lemma_hidden_line_changes_nothing(
    frame: Seq<char>,
    depth: Seq<i64>,
    cols: int,
    rows: int,
    l: Line,
    z: i32,
    glyph: char,
    n: int,
)
    requires
        forall|k: int| 0 <= k < n ==> z <= depth[#[trigger] line_cell(cols, rows, l, k)],
    ensures
        drawn_depth(depth, cols, rows, l, z, n) == depth,
        drawn_frame(frame, depth, cols, rows, l, z, glyph, n) == frame,
{
    assert(drawn_depth(depth, cols, rows, l, z, n) =~= depth);
    assert(drawn_frame(frame, depth, cols, rows, l, z, glyph, n) =~= frame);
}

/// A cell of the line that was empty before takes the line, whatever the
/// line's depth is.
pub proof fn lemma_line_shows_on_empty_cell(
    frame: Seq<char>,
    depth: Seq<i64>,
    cols: int,
    rows: int,
    l: Line,
    z: i32,
    glyph: char,
    n: int,
    k: int,
)
    requires
        0 <= k < n,
        frame.len() == depth.len(),
        0 <= line_cell(cols, rows, l, k) < depth.len(),
        depth[line_cell(cols, rows, l, k)] == DEPTH_FLOOR,
    ensures
        drawn_depth(depth, cols, rows, l, z, n)[line_cell(cols, rows, l, k)] == z,
        drawn_frame(frame, depth, cols, rows, l, z, glyph, n)[line_cell(cols, rows, l, k)]
            == glyph,
{
    let c = line_cell(cols, rows, l, k);
    assert(line_covers(cols, rows, l, n, c));
}

/// A line changes a cell only where it passes and is nearer than what was
/// there; the depth of a cell never falls, and a cell changes in both
/// buffers or in neither.
pub proof fn lemma_nearest_wins(
    frame: Seq<char>,
    depth: Seq<i64>,
    cols: int,
    rows: int,
    l: Line,
    z: i32,
    glyph: char,
    n: int,
    cell: int,
)
    requires
        frame.len() == depth.len(),
        0 <= cell < depth.len(),
    ensures
        ({
            let after = drawn_depth(depth, cols, rows, l, z, n)[cell];
            let shown = drawn_frame(frame, depth, cols, rows, l, z, glyph, n)[cell];
            &&& after >= depth[cell]
            &&& (after == depth[cell] && shown == frame[cell]) || (after == z && shown == glyph
                && z > depth[cell] && line_covers(cols, rows, l, n, cell))
        }),
{
}

/// Returns `v` wrapped into a range of `n` cells.
pub fn wrap_index(v: i64, n: usize) -> (r: usize)
    requires
        n > 0,
    ensures
        r == wrap(v as int, n as int),
        r < n,
{
    proof {
        lemma_wrap(v as int, n as int);
    }
    if v >= 0 {
        ((v as u64) % (n as u64)) as usize
    } else {
        let back: u64 = (-(v as i128)) as u64;
        let t: u64 = back % (n as u64);
        proof {
            lemma_wrap_negative(v as int, n as int);
        }
        if t == 0 {
            0
        } else {
            ((n as u64) - t) as usize
        }
    }
}

/// Draws the line from `(x0, y0)` to `(x1, y1)` at depth `z` with the
/// character that stands for `intensity`.
///
/// Each cell of the line is tested against the depth buffer: where `z` is
/// greater than the depth the cell holds, the cell takes `z` in the depth
/// buffer and the character in the frame buffer; elsewhere both buffers
/// stay as they are.
pub fn draw_line(
    screen: &mut Grid<char>,
    depth: &mut Grid<i64>,
    x0: i32,
    y0: i32,
    x1: i32,
    y1: i32,
    z: i32,
    intensity: i32,
)
    requires
        old(screen).wf(),
        old(depth).wf(),
        old(screen).same_shape(old(depth)),
        old(screen).cols() > 0,
        old(screen).rows() > 0,
    ensures
        final(screen).wf(),
        final(depth).wf(),
        final(screen).cols() == old(screen).cols(),
        final(screen).rows() == old(screen).rows(),
        final(depth).cols() == old(depth).cols(),
        final(depth).rows() == old(depth).rows(),
        final(depth)@ == drawn_depth(
            old(depth)@,
            old(screen).cols() as int,
            old(screen).rows() as int,
            line(x0, y0, x1, y1),
            z,
            line_steps(line(x0, y0, x1, y1)) + 1,
        ),
        final(screen)@ == drawn_frame(
            old(screen)@,
            old(depth)@,
            old(screen).cols() as int,
            old(screen).rows() as int,
            line(x0, y0, x1, y1),
            z,
            glyph_spec(intensity as int),
            line_steps(line(x0, y0, x1, y1)) + 1,
        ),
{
    let cols: usize = screen.width();
    let rows: usize = screen.height();
    let glyph: char = intensity_glyph(intensity);
    let dx: i64 = if x0 < x1 { x1 as i64 - x0 as i64 } else { x0 as i64 - x1 as i64 };
    let dy: i64 = if y0 < y1 { y1 as i64 - y0 as i64 } else { y0 as i64 - y1 as i64 };
    let sx: i64 = if x0 < x1 { 1 } else { -1 };
    let sy: i64 = if y0 < y1 { 1 } else { -1 };
    let mut err: i64 = dx - dy;
    let mut x: i64 = x0 as i64;
    let mut y: i64 = y0 as i64;
    let ghost l = line(x0, y0, x1, y1);
    let ghost steps = line_steps(l);
    let ghost a = if dx >= dy { dy as int } else { dx as int };
    let ghost b = if dx >= dy { dx as int } else { dy as int };
    let ghost mut k: int = 0;
    proof {
        screen.lemma_len();
        depth.lemma_len();
        lemma_line_ends(l);
        lemma_draw_none(screen@, depth@, cols as int, rows as int, l, z, glyph);
        if b > 0 {
            lemma_minor_ends(a, b);
        }
        assert(0 * a == 0) by (nonlinear_arith);
        assert(0 * b == 0) by (nonlinear_arith);
    }
    loop
        invariant_except_break
            0 <= k <= steps,
            (x as int, y as int) == line_point(l, k),
            b > 0 ==> err == dx - dy + (if dx >= dy {
                minor_offset(k, a, b) * b - k * a
            } else {
                k * a - minor_offset(k, a, b) * b
            }),
            depth@ == drawn_depth(old(depth)@, cols as int, rows as int, l, z, k),
            screen@ == drawn_frame(
                old(screen)@,
                old(depth)@,
                cols as int,
                rows as int,
                l,
                z,
                glyph,
                k,
            ),
        invariant
            l == line(x0, y0, x1, y1),
            steps == line_steps(l),
            dx == span(x0 as int, x1 as int),
            dy == span(y0 as int, y1 as int),
            sx == (if x0 < x1 { 1int } else { -1int }),
            sy == (if y0 < y1 { 1int } else { -1int }),
            a == (if dx >= dy { dy as int } else { dx as int }),
            b == (if dx >= dy { dx as int } else { dy as int }),
            screen.wf(),
            depth.wf(),
            screen.cols() == cols == old(screen).cols() == depth.cols() == old(depth).cols(),
            screen.rows() == rows == old(screen).rows() == depth.rows() == old(depth).rows(),
            screen@.len() == depth@.len() == old(depth)@.len() == old(screen)@.len(),
            old(depth)@.len() == cols * rows,
            cols > 0,
            rows > 0,
        ensures
            depth@ == drawn_depth(old(depth)@, cols as int, rows as int, l, z, steps + 1),
            screen@ == drawn_frame(
                old(screen)@,
                old(depth)@,
                cols as int,
                rows as int,
                l,
                z,
                glyph,
                steps + 1,
            ),
        decreases steps - k,
    {
        let col: usize = wrap_index(x, cols);
        let row: usize = wrap_index(y, rows);
        proof {
            lemma_cell_index(cols as int, rows as int, row as int, col as int);
            lemma_draw_step(old(screen)@, old(depth)@, cols as int, rows as int, l, z, glyph, k);
            assert(line_cell(cols as int, rows as int, l, k) == cell_index(
                cols as int,
                row as int,
                col as int,
            ));
        }
        if (z as i64) > depth.get(row, col) {
            depth.set(row, col, z as i64);
            screen.set(row, col, glyph);
        }
        proof {
            if b > 0 {
                lemma_minor_ends(a, b);
            }
        }
        if x == x1 as i64 && y == y1 as i64 {
            proof {
                if k < steps {
                    lemma_minor_step(k, a, b);
                }
                assert(k == steps);
            }
            break ;
        }
        proof {
            lemma_line_ends(l);
            assert(k < steps);
            lemma_minor_step(k, a, b);
        }
        let e2: i64 = 2 * err;
        if e2 > -dy {
            err = err - dy;
            x = x + sx;
        }
        if e2 < dx {
            err = err + dx;
            y = y + sy;
        }
        proof {
            k = k + 1;
        }
    }
}

} // verus!
