//! Points and directions in space, and the two vector operations that
//! shading needs: normalisation and the inner product.
//!
//! A vector is three integers, and what they count is up to its user.
//! Positions count millionths. A unit vector counts billionths: `normalize`
//! returns a vector whose length is `UNIT`, a thousand times finer than a
//! position, so that the length of a normalised vector is one within four
//! billionths and normalising it again moves no coordinate by more than
//! that. The inner product is exact: it counts the product of what its
//! two arguments count, so that of two unit vectors counts in
//! `UNIT_SQUARED`.

use vstd::prelude::*;
use vstd::assert_by_contradiction;
use crate::fixed::{
    saturate_i32, isqrt, saturate, floor_sqrt, is_floor_sqrt, lemma_floor_sqrt, magnitude,
};

verus! {

/// The length of a unit vector: what stands for 1.0 in the coordinates of a
/// normalised vector.
pub const UNIT: i32 = 1_000_000_000;

/// The square of `UNIT`: what stands for 1.0 in the inner product of two
/// unit vectors.
pub const UNIT_SQUARED: i64 = 1_000_000_000_000_000_000;

/// The value of `UNIT`, written out for specifications.
#[verifier::inline]
pub open spec fn unit() -> int {
    1_000_000_000
}

/// The value of `UNIT_SQUARED`, written out for specifications.
#[verifier::inline]
pub open spec fn unit_squared() -> int {
    1_000_000_000_000_000_000
}

/// The values written out for specifications are those of the constants.
pub proof fn lemma_unit_values()
    ensures
        UNIT == unit(),
        UNIT_SQUARED == unit_squared(),
        unit_squared() == unit() * unit(),
{
}

/// A point, or a vector, with integer coordinates. The coordinates of a
/// position count millionths, those of a unit vector billionths.
#[derive(Clone, Copy, Debug, PartialEq, Eq, Structural)]
pub struct Point3 {
    pub x: i32,
    pub y: i32,
    pub z: i32,
}

/// The squared length of `v`, counted in the square of what the
/// coordinates of `v` count.
pub open spec fn norm_sq(v: Point3) -> int {
    v.x * v.x + v.y * v.y + v.z * v.z
}

/// What normalisation makes of the coordinate `c` of a vector whose squared
/// length is `s > 0`: the real number `c / sqrt(s)`, cut off toward zero at
/// the ninth decimal and counted in billionths.
pub open spec fn unit_component(c: int, s: int) -> int {
    if c >= 0 {
        floor_sqrt(((c * c) * unit_squared()) / s)
    } else {
        -floor_sqrt(((c * c) * unit_squared()) / s)
    }
}

/// The unit vector in the direction of `v`, in billionths, or the zero
/// vector for the zero vector. It depends on the direction of `v` alone,
/// not on what the coordinates of `v` count.
pub open spec fn normalize_spec(v: Point3) -> Point3 {
    if norm_sq(v) == 0 {
        Point3 { x: 0, y: 0, z: 0 }
    } else {
        Point3 {
            x: unit_component(v.x as int, norm_sq(v)) as i32,
            y: unit_component(v.y as int, norm_sq(v)) as i32,
            z: unit_component(v.z as int, norm_sq(v)) as i32,
        }
    }
}

/// The inner product of `a` and `b`, exactly. It counts the product of
/// what the coordinates of `a` and of `b` count.
pub open spec fn dot_spec(a: Point3, b: Point3) -> int {
    a.x * b.x + a.y * b.y + a.z * b.z
}

/// The coordinates of `to` minus those of `from`, each saturated.
pub open spec fn edge_vector_spec(from: Point3, to: Point3) -> Point3 {
    Point3 {
        x: saturate(to.x - from.x) as i32,
        y: saturate(to.y - from.y) as i32,
        z: saturate(to.z - from.z) as i32,
    }
}

/// The coordinates of `v` plus those of `offset`, each saturated.
pub open spec fn move_by_spec(v: Point3, offset: Point3) -> Point3 {
    Point3 {
        x: saturate(v.x + offset.x) as i32,
        y: saturate(v.y + offset.y) as i32,
        z: saturate(v.z + offset.z) as i32,
    }
}

/// The magnitude `q` of a normalised coordinate lies within one step below
/// the exact value: `q / UNIT <= |c| / sqrt(s) < (q + 1) / UNIT`, stated
/// without roots or fractions. It keeps the sign of `c` and does not
/// exceed `UNIT`.
pub proof fn lemma_unit_component(c: int, s: int)
    requires
        s > 0,
        c * c <= s,
    ensures
        ({
            let q = unit_component(c, s);
            let m = if q >= 0 { q } else { -q };
            &&& (c >= 0 ==> q >= 0)
            &&& (c <= 0 ==> q <= 0)
            &&& m <= UNIT
            &&& (m * m) * s <= (c * c) * unit_squared()
            &&& (c * c) * unit_squared() < ((m + 1) * (m + 1)) * s
        }),
{
    let a = (c * c) * unit_squared();
    let k = a / s;
    let r = floor_sqrt(k);
    assert(0 <= a) by (nonlinear_arith)
        requires
            a == (c * c) * 1_000_000_000_000_000_000,
    ;
    assert(0 <= k && k * s <= a < (k + 1) * s && k <= 1_000_000_000_000_000_000) by (nonlinear_arith)
        requires
            s > 0,
            0 <= a,
            k == a / s,
            a == (c * c) * 1_000_000_000_000_000_000,
            c * c <= s,
    ;
    lemma_floor_sqrt(k);
    assert(is_floor_sqrt(r, k));
    assert(r <= 1_000_000_000) by (nonlinear_arith)
        requires
            0 <= r,
            r * r <= k,
            k <= 1_000_000_000_000_000_000,
    ;
    assert((r * r) * s <= a) by (nonlinear_arith)
        requires
            r * r <= k,
            k * s <= a,
            s > 0,
    ;
    assert(a < ((r + 1) * (r + 1)) * s) by (nonlinear_arith)
        requires
            k < (r + 1) * (r + 1),
            a < (k + 1) * s,
            s > 0,
    ;
    if c == 0 {
        assert(a == 0) by (nonlinear_arith)
            requires
                c == 0,
                a == (c * c) * 1_000_000_000_000_000_000,
        ;
        assert(r == 0) by (nonlinear_arith)
            requires
                0 <= r,
                (r * r) * s <= a,
                a == 0,
                s > 0,
        ;
    }
    let q = unit_component(c, s);
    let m = if q >= 0 { q } else { -q };
    assert(m == r);
}

/// Whatever lies within one step below the exact value of a normalised
/// coordinate, as `lemma_unit_component` says of it, is that coordinate.
pub proof fn lemma_unit_component_is(c: int, s: int, q: int)
    requires
        s > 0,
        c >= 0 ==> q >= 0,
        c <= 0 ==> q <= 0,
        (q * q) * s <= (c * c) * unit_squared(),
        (c * c) * unit_squared() < ((magnitude(q) + 1) * (magnitude(q) + 1)) * s,
    ensures
        unit_component(c, s) == q,
{
    let a = (c * c) * unit_squared();
    let k = a / s;
    let m = magnitude(q);
    assert(0 <= a) by (nonlinear_arith)
        requires
            a == (c * c) * 1_000_000_000_000_000_000,
    ;
    assert(0 <= k && k * s <= a < (k + 1) * s) by (nonlinear_arith)
        requires
            s > 0,
            0 <= a,
            k == a / s,
    ;
    assert(m * m == q * q) by (nonlinear_arith)
        requires
            m == q || m == -q,
    ;
    assert(m * m <= k) by (nonlinear_arith)
        requires
            (m * m) * s <= a,
            a < (k + 1) * s,
            s > 0,
    ;
    assert(k < (m + 1) * (m + 1)) by (nonlinear_arith)
        requires
            a < ((m + 1) * (m + 1)) * s,
            k * s <= a,
            s > 0,
    ;
    assert(is_floor_sqrt(m, k));
    lemma_floor_sqrt(k);
    if c == 0 {
        assert(q == 0);
    }
}

/// Normalising a vector yields a vector whose length is one within four
/// billionths: at most `UNIT` and at least `UNIT - 4`. One step outward in
/// every coordinate yields a length above one.
pub proof fn lemma_normalize_unit_length(v: Point3)
    requires
        norm_sq(v) != 0,
    ensures
        ({
            let u = normalize_spec(v);
            let ax = if u.x >= 0 { u.x as int } else { -(u.x as int) };
            let ay = if u.y >= 0 { u.y as int } else { -(u.y as int) };
            let az = if u.z >= 0 { u.z as int } else { -(u.z as int) };
            &&& norm_sq(u) <= unit_squared()
            &&& (ax + 1) * (ax + 1) + (ay + 1) * (ay + 1) + (az + 1) * (az + 1) > unit_squared()
            &&& norm_sq(u) >= (unit() - 4) * (unit() - 4)
        }),
{
    let s = norm_sq(v);
    lemma_norm_sq_bounds(v);
    lemma_unit_component(v.x as int, s);
    lemma_unit_component(v.y as int, s);
    lemma_unit_component(v.z as int, s);
    let u = normalize_spec(v);
    let ax = if u.x >= 0 { u.x as int } else { -(u.x as int) };
    let ay = if u.y >= 0 { u.y as int } else { -(u.y as int) };
    let az = if u.z >= 0 { u.z as int } else { -(u.z as int) };
    assert(u.x * u.x == ax * ax && u.y * u.y == ay * ay && u.z * u.z == az * az)
        by (nonlinear_arith)
        requires
            ax == u.x || ax == -u.x,
            ay == u.y || ay == -u.y,
            az == u.z || az == -u.z,
    ;
    let cx = v.x * v.x;
    let cy = v.y * v.y;
    let cz = v.z * v.z;
    assert(norm_sq(u) <= 1_000_000_000_000_000_000) by (nonlinear_arith)
        requires
            norm_sq(u) == ax * ax + ay * ay + az * az,
            (ax * ax) * s <= cx * 1_000_000_000_000_000_000,
            (ay * ay) * s <= cy * 1_000_000_000_000_000_000,
            (az * az) * s <= cz * 1_000_000_000_000_000_000,
            s == cx + cy + cz,
            s > 0,
    ;
    let bx = (ax + 1) * (ax + 1);
    let by = (ay + 1) * (ay + 1);
    let bz = (az + 1) * (az + 1);
    assert(bx + by + bz > 1_000_000_000_000_000_000) by (nonlinear_arith)
        requires
            cx * 1_000_000_000_000_000_000 < bx * s,
            cy * 1_000_000_000_000_000_000 < by * s,
            cz * 1_000_000_000_000_000_000 < bz * s,
            s == cx + cy + cz,
            s > 0,
    ;
    assert(bx == ax * ax + 2 * ax + 1 && by == ay * ay + 2 * ay + 1 && bz == az * az + 2 * az
        + 1) by (nonlinear_arith)
        requires
            bx == (ax + 1) * (ax + 1),
            by == (ay + 1) * (ay + 1),
            bz == (az + 1) * (az + 1),
    ;
}

/// What normalisation makes of a coordinate of a vector whose length is
/// already one within four billionths: the coordinate itself, or one up to
/// four billionths further from zero.
proof fn lemma_renormalized_component(c: int, n: int)
    requires
        (unit() - 4) * (unit() - 4) <= n <= unit_squared(),
        c * c <= n,
        -unit() <= c <= unit(),
    ensures
        c >= 0 ==> c <= unit_component(c, n) <= c + 4,
        c <= 0 ==> c - 4 <= unit_component(c, n) <= c,
{
    lemma_unit_component(c, n);
    let q = unit_component(c, n);
    let m = if q >= 0 { q } else { -q };
    let a = magnitude(c);
    let f = unit();
    assert(c * c == a * a) by (nonlinear_arith)
        requires
            a == c || a == -c,
    ;
    assert_by_contradiction!(m >= a, {
        let low = (m + 1) * (m + 1);
        assert(low <= a * a) by (nonlinear_arith)
            requires
                low == (m + 1) * (m + 1),
                0 <= m + 1 <= a,
        ;
        assert(low * n <= (a * a) * 1_000_000_000_000_000_000) by (nonlinear_arith)
            requires
                0 <= low <= a * a,
                0 <= n <= 1_000_000_000_000_000_000,
        ;
    });
    assert_by_contradiction!(m <= a + 4, {
        let p = (a + 5) * (f - 4);
        let r = a * f;
        assert(p > r && r >= 0) by (nonlinear_arith)
            requires
                p == (a + 5) * (f - 4),
                r == a * f,
                0 <= a <= f,
                f == 1_000_000_000,
        ;
        assert(p * p > r * r) by (nonlinear_arith)
            requires
                p > r,
                r >= 0,
        ;
        assert(((a + 5) * (a + 5)) * ((f - 4) * (f - 4)) == p * p) by (nonlinear_arith)
            requires
                p == (a + 5) * (f - 4),
        ;
        assert((a * a) * (f * f) == r * r) by (nonlinear_arith)
            requires
                r == a * f,
        ;
        assert((m * m) * n >= ((a + 5) * (a + 5)) * ((f - 4) * (f - 4))) by (nonlinear_arith)
            requires
                m >= a + 5,
                a >= 0,
                n >= (f - 4) * (f - 4),
                f >= 4,
        ;
        assert(f * f == 1_000_000_000_000_000_000);
    });
}

/// Normalising a normalised vector changes next to nothing: no coordinate
/// moves toward zero, and none by more than four billionths.
pub proof fn lemma_normalize_twice(v: Point3)
    requires
        norm_sq(v) != 0,
    ensures
        ({
            let u = normalize_spec(v);
            let w = normalize_spec(u);
            &&& u.x >= 0 ==> u.x <= w.x <= u.x + 4
            &&& u.x <= 0 ==> u.x - 4 <= w.x <= u.x
            &&& u.y >= 0 ==> u.y <= w.y <= u.y + 4
            &&& u.y <= 0 ==> u.y - 4 <= w.y <= u.y
            &&& u.z >= 0 ==> u.z <= w.z <= u.z + 4
            &&& u.z <= 0 ==> u.z - 4 <= w.z <= u.z
        }),
{
    let s = norm_sq(v);
    lemma_norm_sq_bounds(v);
    lemma_unit_component(v.x as int, s);
    lemma_unit_component(v.y as int, s);
    lemma_unit_component(v.z as int, s);
    lemma_normalize_unit_length(v);
    let u = normalize_spec(v);
    let n = norm_sq(u);
    lemma_norm_sq_bounds(u);
    lemma_renormalized_component(u.x as int, n);
    lemma_renormalized_component(u.y as int, n);
    lemma_renormalized_component(u.z as int, n);
}

/// `l` points the way `e` does: `n` times `l` is `m` times `e`, for
/// positive `m` and `n`.
pub open spec fn aligned(e: Point3, l: Point3, m: int, n: int) -> bool {
    &&& m > 0
    &&& n > 0
    &&& n * l.x == m * e.x
    &&& n * l.y == m * e.y
    &&& n * l.z == m * e.z
}

/// Normalisation makes the same of a coordinate when the vector is
/// stretched.
proof fn lemma_unit_component_stretched(c: int, s: int, c2: int, s2: int, m: int, n: int)
    requires
        s > 0,
        s2 > 0,
        m > 0,
        n > 0,
        n * c2 == m * c,
        (n * n) * s2 == (m * m) * s,
    ensures
        unit_component(c2, s2) == unit_component(c, s),
{
    let f2 = unit_squared();
    let sq = c * c;
    let sq2 = c2 * c2;
    let a = sq * f2;
    let a2 = sq2 * f2;
    let k = a / s;
    let nn = n * n;
    let mm = m * m;
    assert(nn > 0 && mm > 0) by (nonlinear_arith)
        requires
            nn == n * n,
            mm == m * m,
            m > 0,
            n > 0,
    ;
    assert(nn * sq2 == mm * sq) by (nonlinear_arith)
        requires
            n * c2 == m * c,
            nn == n * n,
            mm == m * m,
            sq == c * c,
            sq2 == c2 * c2,
    ;
    assert(nn * a2 == mm * a) by (nonlinear_arith)
        requires
            nn * sq2 == mm * sq,
            a == sq * f2,
            a2 == sq2 * f2,
    ;
    assert(0 <= a && 0 <= sq) by (nonlinear_arith)
        requires
            sq == c * c,
            a == sq * 1_000_000_000_000_000_000,
    ;
    assert(0 <= k && k * s <= a < (k + 1) * s) by (nonlinear_arith)
        requires
            s > 0,
            0 <= a,
            k == a / s,
    ;
    assert(nn * (k * s2) == mm * (k * s) && nn * ((k + 1) * s2) == mm * ((k + 1) * s))
        by (nonlinear_arith)
        requires
            nn * s2 == mm * s,
    ;
    assert(mm * (k * s) <= mm * a && mm * a < mm * ((k + 1) * s)) by (nonlinear_arith)
        requires
            mm > 0,
            k * s <= a < (k + 1) * s,
    ;
    let lo = k * s2;
    let hi = (k + 1) * s2;
    assert(lo <= a2 < hi) by (nonlinear_arith)
        requires
            nn > 0,
            nn * lo <= nn * a2,
            nn * a2 < nn * hi,
    ;
    assert(a2 / s2 == k) by (nonlinear_arith)
        requires
            s2 > 0,
            k * s2 <= a2 < (k + 1) * s2,
    ;
    assert((c >= 0) == (c2 >= 0)) by (nonlinear_arith)
        requires
            n * c2 == m * c,
            m > 0,
            n > 0,
    ;
}

/// Two vectors that point the same way have the same normalisation.
pub proof fn lemma_normalize_aligned(e: Point3, l: Point3, m: int, n: int)
    requires
        norm_sq(e) != 0,
        aligned(e, l, m, n),
    ensures
        norm_sq(l) != 0,
        normalize_spec(l) == normalize_spec(e),
{
    let s = norm_sq(e);
    let s2 = norm_sq(l);
    lemma_norm_sq_bounds(e);
    lemma_norm_sq_bounds(l);
    let nn = n * n;
    let mm = m * m;
    assert(nn * (l.x * l.x) == mm * (e.x * e.x)) by (nonlinear_arith)
        requires
            n * l.x == m * e.x,
            nn == n * n,
            mm == m * m,
    ;
    assert(nn * (l.y * l.y) == mm * (e.y * e.y)) by (nonlinear_arith)
        requires
            n * l.y == m * e.y,
            nn == n * n,
            mm == m * m,
    ;
    assert(nn * (l.z * l.z) == mm * (e.z * e.z)) by (nonlinear_arith)
        requires
            n * l.z == m * e.z,
            nn == n * n,
            mm == m * m,
    ;
    let ex = e.x * e.x;
    let ey = e.y * e.y;
    let ez = e.z * e.z;
    let lx = l.x * l.x;
    let ly = l.y * l.y;
    let lz = l.z * l.z;
    assert(nn * s2 == mm * s && s2 > 0) by (nonlinear_arith)
        requires
            s == ex + ey + ez,
            s2 == lx + ly + lz,
            nn * lx == mm * ex,
            nn * ly == mm * ey,
            nn * lz == mm * ez,
            nn == n * n,
            mm == m * m,
            m > 0,
            n > 0,
            s > 0,
            s2 >= 0,
    ;
    lemma_unit_component_stretched(e.x as int, s, l.x as int, s2, m, n);
    lemma_unit_component_stretched(e.y as int, s, l.y as int, s2, m, n);
    lemma_unit_component_stretched(e.z as int, s, l.z as int, s2, m, n);
}

/// Normalising keeps the direction: every coordinate of the result has the
/// sign of the input's, and is the exact coordinate of the unit vector cut
/// off toward zero.
pub proof fn lemma_normalize_same_direction(v: Point3)
    requires
        norm_sq(v) != 0,
    ensures
        ({
            let u = normalize_spec(v);
            let s = norm_sq(v);
            &&& (v.x >= 0 ==> u.x >= 0) && (v.x <= 0 ==> u.x <= 0)
            &&& (v.y >= 0 ==> u.y >= 0) && (v.y <= 0 ==> u.y <= 0)
            &&& (v.z >= 0 ==> u.z >= 0) && (v.z <= 0 ==> u.z <= 0)
            &&& u.x == unit_component(v.x as int, s)
            &&& u.y == unit_component(v.y as int, s)
            &&& u.z == unit_component(v.z as int, s)
        }),
{
    let s = norm_sq(v);
    lemma_norm_sq_bounds(v);
    lemma_unit_component(v.x as int, s);
    lemma_unit_component(v.y as int, s);
    lemma_unit_component(v.z as int, s);
}

/// A vector whose length is exactly one is its own normalisation.
pub proof fn lemma_normalize_idempotent(v: Point3)
    requires
        norm_sq(v) == unit_squared(),
    ensures
        normalize_spec(v) == v,
{
    let s = norm_sq(v);
    lemma_norm_sq_bounds(v);
    lemma_unit_of_unit(v.x as int, s);
    lemma_unit_of_unit(v.y as int, s);
    lemma_unit_of_unit(v.z as int, s);
}

/// The zero vector is its own normalisation.
pub proof fn lemma_normalize_zero()
    ensures
        normalize_spec(Point3 { x: 0, y: 0, z: 0 }) == (Point3 { x: 0, y: 0, z: 0 }),
{
}

proof fn lemma_unit_of_unit(c: int, s: int)
    requires
        s == unit_squared(),
    ensures
        unit_component(c, s) == c,
{
    let a = (c * c) * unit_squared();
    let k = a / s;
    assert(k == c * c) by (nonlinear_arith)
        requires
            k == ((c * c) * 1_000_000_000_000_000_000) / 1_000_000_000_000_000_000,
    ;
    let m = if c >= 0 { c } else { -c };
    assert(is_floor_sqrt(m, k)) by (nonlinear_arith)
        requires
            k == c * c,
            m == c || m == -c,
            m >= 0,
    ;
    lemma_floor_sqrt(k);
}

proof fn lemma_norm_sq_bounds(v: Point3)
    ensures
        0 <= v.x * v.x <= norm_sq(v),
        0 <= v.y * v.y <= norm_sq(v),
        0 <= v.z * v.z <= norm_sq(v),
        norm_sq(v) <= 3 * 0x4000_0000_0000_0000,
        norm_sq(v) == 0 ==> v.x == 0 && v.y == 0 && v.z == 0,
{
    lemma_square_bounds(v.x as int);
    lemma_square_bounds(v.y as int);
    lemma_square_bounds(v.z as int);
}

proof fn lemma_square_bounds(c: int)
    requires
        -0x8000_0000 <= c <= 0x7fff_ffff,
    ensures
        0 <= c * c <= 0x4000_0000_0000_0000,
        c * c == 0 ==> c == 0,
        c < 0 ==> c * c == (-c) * (-c),
{
    assert(0 <= c * c <= 0x4000_0000_0000_0000 && (c * c == 0 ==> c == 0) && c * c == (-c) * (-c))
        by (nonlinear_arith)
        requires
            -0x8000_0000 <= c <= 0x7fff_ffff,
    ;
}

fn normalize_component(c: i32, s: u64) -> (q: i32)
    requires
        s > 0,
        c * c <= s,
    ensures
        q == unit_component(c as int, s as int),
{
    proof {
        lemma_square_bounds(c as int);
    }
    let a: u64 = if c < 0 { (-(c as i64)) as u64 } else { c as u64 };
    assert(a * a == c * c) by (nonlinear_arith)
        requires
            a == c || a == -c,
    ;
    let sq: u128 = (a as u128) * (a as u128);
    assert(sq * 1_000_000_000_000_000_000 <= 0x4000_0000_0000_0000 * 1_000_000_000_000_000_000)
        by (nonlinear_arith)
        requires
            0 <= sq <= 0x4000_0000_0000_0000,
    ;
    let scaled: u128 = sq * 1_000_000_000_000_000_000;
    let k: u128 = scaled / (s as u128);
    assert(k <= 1_000_000_000_000_000_000) by (nonlinear_arith)
        requires
            k == (sq * 1_000_000_000_000_000_000) / (s as int),
            0 <= sq <= s,
            s > 0,
    ;
    let r: u64 = isqrt(k as u64);
    proof {
        lemma_floor_sqrt(k as int);
        assert(r <= 1_000_000_000) by (nonlinear_arith)
            requires
                0 <= r,
                r * r <= k,
                k <= 1_000_000_000_000_000_000,
        ;
    }
    if c < 0 {
        -(r as i32)
    } else {
        r as i32
    }
}

/// Returns the unit vector in the direction of `v`, in billionths; the zero
/// vector has no direction and is returned as it is.
pub fn normalize(v: Point3) -> (u: Point3)
    ensures
        u == normalize_spec(v),
        norm_sq(v) == 0 ==> norm_sq(u) == 0,
        norm_sq(v) != 0 ==> (unit() - 4) * (unit() - 4) <= norm_sq(u) <= unit_squared(),
{
    proof {
        lemma_norm_sq_bounds(v);
        if norm_sq(v) != 0 {
            lemma_normalize_unit_length(v);
        }
    }
    let x: i128 = v.x as i128;
    let y: i128 = v.y as i128;
    let z: i128 = v.z as i128;
    let s: u64 = (x * x + y * y + z * z) as u64;
    if s == 0 {
        Point3 { x: 0, y: 0, z: 0 }
    } else {
        proof {
            lemma_unit_component(v.x as int, s as int);
            lemma_unit_component(v.y as int, s as int);
            lemma_unit_component(v.z as int, s as int);
        }
        Point3 {
            x: normalize_component(v.x, s),
            y: normalize_component(v.y, s),
            z: normalize_component(v.z, s),
        }
    }
}

/// Returns the inner product of `v1` and `v2`, exactly.
pub fn dot_product(v1: Point3, v2: Point3) -> (d: i128)
    ensures
        d == dot_spec(v1, v2),
        -3 * 0x4000_0000_0000_0000 <= d <= 3 * 0x4000_0000_0000_0000,
{
    proof {
        lemma_product_bounds(v1.x as int, v2.x as int);
        lemma_product_bounds(v1.y as int, v2.y as int);
        lemma_product_bounds(v1.z as int, v2.z as int);
    }
    let px: i128 = (v1.x as i128) * (v2.x as i128);
    let py: i128 = (v1.y as i128) * (v2.y as i128);
    let pz: i128 = (v1.z as i128) * (v2.z as i128);
    px + py + pz
}

/// Returns the vector that leads from `from` to `to`.
pub fn edge_vector(from: Point3, to: Point3) -> (e: Point3)
    ensures
        e == edge_vector_spec(from, to),
{
    Point3 {
        x: saturate_i32(to.x as i128 - from.x as i128),
        y: saturate_i32(to.y as i128 - from.y as i128),
        z: saturate_i32(to.z as i128 - from.z as i128),
    }
}

/// Returns `v` moved by `offset`.
pub fn move_by(v: Point3, offset: Point3) -> (p: Point3)
    ensures
        p == move_by_spec(v, offset),
{
    Point3 {
        x: saturate_i32(v.x as i128 + offset.x as i128),
        y: saturate_i32(v.y as i128 + offset.y as i128),
        z: saturate_i32(v.z as i128 + offset.z as i128),
    }
}

pub(crate) proof fn lemma_product_bounds(a: int, b: int)
    requires
        -0x8000_0000 <= a <= 0x7fff_ffff,
        -0x8000_0000 <= b <= 0x7fff_ffff,
    ensures
        -0x4000_0000_0000_0000 <= a * b <= 0x4000_0000_0000_0000,
{
    assert(-0x4000_0000_0000_0000 <= a * b <= 0x4000_0000_0000_0000) by (nonlinear_arith)
        requires
            -0x8000_0000 <= a <= 0x7fff_ffff,
            -0x8000_0000 <= b <= 0x7fff_ffff,
    ;
}

} // verus!
