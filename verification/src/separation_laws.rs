//! How far apart a resolved contact leaves two bodies: as far as their radii
//! ask, up to what the rounding of the normal and of the pushes takes away.

use crate::body::{representable, BodyKind, BodyModel};
use crate::collision_laws::lemma_quot_neg;
use crate::narrow_phase::{contact_of, gap, lemma_penetration_positive, overlapping, reach};
use crate::resolver::{correction_shares, resolved};
use crate::scalar::{
    floor_sqrt, fx_add, fx_mul, fx_sub, is_floor_sqrt, lemma_floor_sqrt_exists,
    lemma_floor_sqrt_is, quot, SCALE,
};
use crate::vector::V3;
use vstd::prelude::*;

verus! {

/// The absolute value of `x`.
pub open spec fn magnitude(x: int) -> int {
    if x >= 0 {
        x
    } else {
        -x
    }
}

/// What one coordinate of the gap between two bodies gains when the first is
/// pushed by `t` against the unit normal coordinate `n` and the second by
/// `s` along it.
pub open spec fn widening(n: int, s: int, t: int) -> int {
    quot(n * s, SCALE as int) + quot(n * t, SCALE as int)
}

/// One coordinate of a gap that points up its axis. The gap was magnified by
/// `f` and then measured as `m`; pushing the bodies apart by `s + t` along
/// the rounded normal widens the coordinate in proportion, short of at most
/// `pen / SCALE + 2` raw steps.
proof fn lemma_widened_up(g: int, f: int, m: int, s: int, t: int)
    requires
        0 <= g,
        1 <= f,
        1 <= m,
        g * f <= m,
        0 <= s,
        0 <= t,
    ensures
        ({
            let n = quot(g * (SCALE * f), m);
            let e = widening(n, s, t);
            let pen = s + t;
            &&& 0 <= n <= SCALE
            &&& 0 <= e <= pen
            &&& (g + e) * SCALE * m >= g * SCALE * (m + f * pen) - m * (pen + 2 * SCALE)
        }),
{
    let top = g * (SCALE * f);
    let n = top / m;
    let pen = s + t;
    assert(top == SCALE * (g * f) && 0 <= top) by (nonlinear_arith)
        requires
            top == g * (SCALE * f),
            0 <= g,
            1 <= f,
            SCALE == 1_000_000,
    ;
    assert(m * n <= top < m * n + m && 0 <= n) by (nonlinear_arith)
        requires
            n == top / m,
            m >= 1,
            0 <= top,
    ;
    assert(n <= SCALE) by (nonlinear_arith)
        requires
            m * n <= top,
            top == SCALE * (g * f),
            g * f <= m,
            m >= 1,
            n >= 0,
            SCALE == 1_000_000,
    ;
    assert(0 <= n * s && 0 <= n * t && n * s <= SCALE * s && n * t <= SCALE * t)
        by (nonlinear_arith)
        requires
            0 <= n <= SCALE,
            0 <= s,
            0 <= t,
    ;
    let qs = (n * s) / (SCALE as int);
    let qt = (n * t) / (SCALE as int);
    let e = qs + qt;
    assert(e == widening(n, s, t));
    assert(n * s + n * t == n * pen) by (nonlinear_arith)
        requires
            pen == s + t,
    ;
    assert(SCALE * e >= n * pen - 2 * SCALE + 2);
    assert(0 <= e <= pen);
    assert(SCALE * e * m >= n * pen * m - 2 * SCALE * m + 2 * m) by (nonlinear_arith)
        requires
            SCALE * e >= n * pen - 2 * SCALE + 2,
            m >= 1,
    ;
    assert(m * n * pen >= top * pen - m * pen + pen) by (nonlinear_arith)
        requires
            m * n >= top - m + 1,
            pen >= 0,
    ;
    assert(top * pen == g * SCALE * (f * pen)) by (nonlinear_arith)
        requires
            top == g * (SCALE * f),
    ;
    assert(n * pen * m == m * n * pen) by (nonlinear_arith);
    assert((g + e) * SCALE * m == g * SCALE * m + SCALE * e * m) by (nonlinear_arith);
    assert(g * SCALE * (m + f * pen) == g * SCALE * m + g * SCALE * (f * pen))
        by (nonlinear_arith);
    assert(m * (pen + 2 * SCALE) == m * pen + 2 * SCALE * m) by (nonlinear_arith);
}

/// One coordinate of a gap, whichever way it points: the pushes widen it
/// away from zero, by no more than the penetration, and in proportion to
/// the sum of the radii up to the rounding.
proof fn lemma_widened(g: int, f: int, m: int, s: int, t: int)
    requires
        1 <= f,
        1 <= m,
        magnitude(g) * f <= m,
        0 <= s,
        0 <= t,
    ensures
        ({
            let n = quot(g * (SCALE * f), m);
            let e = widening(n, s, t);
            let pen = s + t;
            &&& -SCALE <= n <= SCALE
            &&& magnitude(g + e) == magnitude(g) + magnitude(e)
            &&& magnitude(e) <= pen
            &&& magnitude(g + e) * SCALE * m >= magnitude(g) * SCALE * (m + f * pen) - m * (pen
                + 2 * SCALE)
        }),
{
    if g >= 0 {
        lemma_widened_up(g, f, m, s, t);
    } else {
        lemma_widened_up(-g, f, m, s, t);
        let np = quot((-g) * (SCALE * f), m);
        let n = quot(g * (SCALE * f), m);
        lemma_quot_neg(g * (SCALE * f), m);
        assert((-g) * (SCALE * f) == -(g * (SCALE * f))) by (nonlinear_arith);
        assert(n == -np);
        assert(n * s == -(np * s)) by (nonlinear_arith)
            requires
                n == -np,
        ;
        assert(n * t == -(np * t)) by (nonlinear_arith)
            requires
                n == -np,
        ;
        lemma_quot_neg(np * s, SCALE as int);
        lemma_quot_neg(np * t, SCALE as int);
        assert(widening(n, s, t) == -widening(np, s, t));
    }
}

/// If `x` is at least `y - z`, with nothing negative, then the square of `x`
/// is at least the square of `y` less twice `y * z`.
proof fn lemma_square_short(x: int, y: int, z: int)
    requires
        0 <= x,
        0 <= y,
        0 <= z,
        x >= y - z,
    ensures
        x * x >= y * y - 2 * (y * z),
{
    if y >= z {
        assert(x * x >= (y - z) * (y - z)) by (nonlinear_arith)
            requires
                x >= y - z,
                y - z >= 0,
        ;
        assert((y - z) * (y - z) == y * y - 2 * (y * z) + z * z) by (nonlinear_arith);
        assert(z * z >= 0) by (nonlinear_arith);
    } else {
        assert(y * y - 2 * (y * z) <= 0) by (nonlinear_arith)
            requires
                0 <= y < z,
        ;
        assert(x * x >= 0) by (nonlinear_arith);
    }
}

/// The squared form of `lemma_widened`.
proof fn lemma_widened_square(g: int, f: int, m: int, s: int, t: int)
    requires
        1 <= f,
        1 <= m,
        magnitude(g) * f <= m,
        0 <= s,
        0 <= t,
    ensures
        ({
            let e = widening(quot(g * (SCALE * f), m), s, t);
            let pen = s + t;
            let far = m + f * pen;
            let sm = SCALE * m;
            sm * (sm * ((g + e) * (g + e))) >= SCALE * (SCALE * ((far * far) * (g * g))) - 2 * (sm
                * (magnitude(g) * (far * (pen + 2 * SCALE))))
        }),
{
    let e = widening(quot(g * (SCALE * f), m), s, t);
    let pen = s + t;
    let far = m + f * pen;
    let k = pen + 2 * SCALE;
    lemma_widened(g, f, m, s, t);
    let mg = magnitude(g + e);
    let h = magnitude(g);
    let x = mg * SCALE * m;
    let y = h * SCALE * far;
    let z = m * k;
    assert(far >= 1) by (nonlinear_arith)
        requires
            far == m + f * pen,
            m >= 1,
            f >= 1,
            pen >= 0,
    ;
    assert(x >= 0 && y >= 0 && z >= 0) by (nonlinear_arith)
        requires
            x == mg * SCALE * m,
            y == h * SCALE * far,
            z == m * k,
            mg >= 0,
            h >= 0,
            m >= 1,
            far >= 1,
            k >= 0,
            SCALE == 1_000_000,
    ;
    lemma_square_short(x, y, z);
    assert(mg * mg == (g + e) * (g + e)) by (nonlinear_arith)
        requires
            mg == g + e || mg == -(g + e),
    ;
    assert(h * h == g * g) by (nonlinear_arith)
        requires
            h == g || h == -g,
    ;
    let sm = SCALE * m;
    assert(x * x == sm * (sm * (mg * mg))) by (nonlinear_arith)
        requires
            x == mg * SCALE * m,
            sm == SCALE * m,
    ;
    assert(y * y == SCALE * (SCALE * ((far * far) * (h * h)))) by (nonlinear_arith)
        requires
            y == h * SCALE * far,
    ;
    assert(y * z == sm * (h * (far * k))) by (nonlinear_arith)
        requires
            y == h * SCALE * far,
            z == m * k,
            sm == SCALE * m,
    ;
}

/// The three coordinates together, in the magnified measure: the squared
/// distance after the pushes, against the magnified sum `far` of the radii.
proof fn lemma_gap_widened_fine(g: V3, f: int, m: int, s: int, t: int)
    requires
        1 <= f,
        1 <= m,
        is_floor_sqrt(g.norm_sq() * (f * f), m),
        0 <= s,
        0 <= t,
    ensures
        ({
            let pen = s + t;
            let far = m + f * pen;
            let wide = V3 {
                x: g.x + widening(quot(g.x * (SCALE * f), m), s, t),
                y: g.y + widening(quot(g.y * (SCALE * f), m), s, t),
                z: g.z + widening(quot(g.z * (SCALE * f), m), s, t),
            };
            (f * f) * (SCALE * wide.norm_sq()) >= SCALE * (far * far) - 6 * (f * (far * (pen + 2
                * SCALE)))
        }),
{
    let pen = s + t;
    let far = m + f * pen;
    let fk = far * (pen + 2 * SCALE);
    let far2 = far * far;
    let sm = SCALE * m;
    let ex = widening(quot(g.x * (SCALE * f), m), s, t);
    let ey = widening(quot(g.y * (SCALE * f), m), s, t);
    let ez = widening(quot(g.z * (SCALE * f), m), s, t);
    let n = g.norm_sq();
    let ff = f * f;
    lemma_coordinate_within_fine(g.x, g.y, g.z, f, m);
    lemma_coordinate_within_fine(g.y, g.x, g.z, f, m);
    lemma_coordinate_within_fine(g.z, g.x, g.y, f, m);
    lemma_widened_square(g.x, f, m, s, t);
    lemma_widened_square(g.y, f, m, s, t);
    lemma_widened_square(g.z, f, m, s, t);
    let ax = (g.x + ex) * (g.x + ex);
    let ay = (g.y + ey) * (g.y + ey);
    let az = (g.z + ez) * (g.z + ez);
    let bx = g.x * g.x;
    let by = g.y * g.y;
    let bz = g.z * g.z;
    let hx = magnitude(g.x);
    let hy = magnitude(g.y);
    let hz = magnitude(g.z);
    let after = ax + ay + az;
    let h = hx + hy + hz;
    assert(far >= 1) by (nonlinear_arith)
        requires
            far == m + f * pen,
            m >= 1,
            f >= 1,
            pen >= 0,
    ;
    assert(fk >= 0 && far2 >= 0 && ff >= 1) by (nonlinear_arith)
        requires
            fk == far * (pen + 2 * SCALE),
            far2 == far * far,
            ff == f * f,
            f >= 1,
            far >= 1,
            pen >= 0,
            SCALE == 1_000_000,
    ;
    assert(sm * (sm * after) == sm * (sm * ax) + sm * (sm * ay) + sm * (sm * az))
        by (nonlinear_arith)
        requires
            after == ax + ay + az,
    ;
    assert(SCALE * (SCALE * (far2 * n)) == SCALE * (SCALE * (far2 * bx)) + SCALE * (SCALE * (far2
        * by)) + SCALE * (SCALE * (far2 * bz))) by (nonlinear_arith)
        requires
            n == bx + by + bz,
    ;
    assert(sm * (h * fk) == sm * (hx * fk) + sm * (hy * fk) + sm * (hz * fk)) by (nonlinear_arith)
        requires
            h == hx + hy + hz,
    ;
    let base = sm * (sm * after);
    let gain = SCALE * (SCALE * (far2 * n));
    let loss = sm * (h * fk);
    assert(base >= gain - 2 * loss);
    // magnify by f * f: n * ff >= m * m and h * f <= 3 * m
    assert(ff * base >= ff * gain - 2 * (ff * loss)) by (nonlinear_arith)
        requires
            base >= gain - 2 * loss,
            ff >= 1,
    ;
    assert(ff * gain == SCALE * (SCALE * (far2 * (n * ff)))) by (nonlinear_arith)
        requires
            gain == SCALE * (SCALE * (far2 * n)),
    ;
    assert(SCALE * (SCALE * (far2 * (n * ff))) >= SCALE * (SCALE * (far2 * (m * m))))
        by (nonlinear_arith)
        requires
            n * ff >= m * m,
            far2 >= 0,
            SCALE == 1_000_000,
    ;
    assert(ff * loss == sm * (f * ((h * f) * fk))) by (nonlinear_arith)
        requires
            loss == sm * (h * fk),
            ff == f * f,
    ;
    assert(h * f == hx * f + hy * f + hz * f) by (nonlinear_arith)
        requires
            h == hx + hy + hz,
    ;
    assert(sm * (f * ((h * f) * fk)) <= sm * (f * ((3 * m) * fk))) by (nonlinear_arith)
        requires
            0 <= h * f <= 3 * m,
            fk >= 0,
            sm >= 0,
            f >= 1,
    ;
    assert(SCALE * (SCALE * (far2 * (m * m))) == sm * (sm * far2)) by (nonlinear_arith)
        requires
            sm == SCALE * m,
    ;
    assert(sm * (f * ((3 * m) * fk)) == sm * (m * (3 * (f * fk)))) by (nonlinear_arith);
    assert(ff * base >= sm * (sm * far2) - 2 * (sm * (m * (3 * (f * fk)))));
    assert(ff * base == sm * (sm * (ff * after))) by (nonlinear_arith)
        requires
            base == sm * (sm * after),
    ;
    assert(sm * (sm * far2) - 2 * (sm * (m * (3 * (f * fk)))) == sm * (sm * far2 - m * (6 * (f
        * fk)))) by (nonlinear_arith);
    assert(sm * (ff * after) >= sm * far2 - m * (6 * (f * fk))) by (nonlinear_arith)
        requires
            sm * (sm * (ff * after)) >= sm * (sm * far2 - m * (6 * (f * fk))),
            sm >= 1,
    ;
    assert(sm * (ff * after) == m * (ff * (SCALE * after)) && sm * far2 - m * (6 * (f * fk)) == m
        * (SCALE * far2 - 6 * (f * fk))) by (nonlinear_arith)
        requires
            sm == SCALE * m,
    ;
    assert(ff * (SCALE * after) >= SCALE * far2 - 6 * (f * fk)) by (nonlinear_arith)
        requires
            m * (ff * (SCALE * after)) >= m * (SCALE * far2 - 6 * (f * fk)),
            m >= 1,
    ;
}

/// The three coordinates together: pushing two bodies apart along the
/// rounded normal of their gap `g`, of length `len`, by `s + t` in all
/// leaves the squared distance short of the squared sum `r` of the radii by
/// at most `6 * r * (pen / SCALE + 2)`.
proof fn lemma_gap_widened(g: V3, f: int, m: int, len: int, s: int, t: int)
    requires
        1 <= f,
        1 <= m,
        is_floor_sqrt(g.norm_sq() * (f * f), m),
        is_floor_sqrt(g.norm_sq(), len),
        0 <= s,
        0 <= t,
    ensures
        ({
            let pen = s + t;
            let r = len + pen;
            let wide = V3 {
                x: g.x + widening(quot(g.x * (SCALE * f), m), s, t),
                y: g.y + widening(quot(g.y * (SCALE * f), m), s, t),
                z: g.z + widening(quot(g.z * (SCALE * f), m), s, t),
            };
            SCALE * wide.norm_sq() >= SCALE * (r * r) - 6 * (r * (pen + 2 * SCALE))
        }),
{
    let pen = s + t;
    let r = len + pen;
    let k = pen + 2 * SCALE;
    let far = m + f * pen;
    let n = g.norm_sq();
    let wide = V3 {
        x: g.x + widening(quot(g.x * (SCALE * f), m), s, t),
        y: g.y + widening(quot(g.y * (SCALE * f), m), s, t),
        z: g.z + widening(quot(g.z * (SCALE * f), m), s, t),
    };
    let after = wide.norm_sq();
    lemma_gap_widened_fine(g, f, m, s, t);
    assert(after >= 0) by (nonlinear_arith)
        requires
            after == wide.x * wide.x + wide.y * wide.y + wide.z * wide.z,
    ;
    // the magnified length is at least the length, magnified
    assert(f * len <= m) by (nonlinear_arith)
        requires
            len * len <= n,
            n * (f * f) < (m + 1) * (m + 1),
            0 <= len,
            1 <= f,
            0 <= m,
    ;
    let v = f * r;
    assert(v == f * len + f * pen && 0 <= v) by (nonlinear_arith)
        requires
            v == f * r,
            r == len + pen,
            0 <= len,
            0 <= pen,
            1 <= f,
    ;
    assert(far >= v);
    let c = 6 * (f * k);
    let ff = f * f;
    assert(far * k >= 0 && c >= 0) by (nonlinear_arith)
        requires
            far >= 0,
            k >= 0,
            c == 6 * (f * k),
            f >= 1,
    ;
    assert(SCALE * (far * far) - 6 * (f * (far * k)) == far * (SCALE * far - c))
        by (nonlinear_arith)
        requires
            c == 6 * (f * k),
    ;
    assert(ff * (SCALE * (r * r) - 6 * (r * k)) == v * (SCALE * v - c)) by (nonlinear_arith)
        requires
            v == f * r,
            c == 6 * (f * k),
            ff == f * f,
    ;
    if SCALE * v - c >= 0 {
        assert(far * (SCALE * far - c) >= v * (SCALE * v - c)) by (nonlinear_arith)
            requires
                far >= v,
                v >= 0,
                SCALE * v - c >= 0,
                SCALE == 1_000_000,
        ;
    } else {
        assert(v * (SCALE * v - c) <= 0) by (nonlinear_arith)
            requires
                v >= 0,
                SCALE * v - c < 0,
        ;
        assert(ff * (SCALE * after) >= 0) by (nonlinear_arith)
            requires
                ff == f * f,
                after >= 0,
                SCALE == 1_000_000,
        ;
    }
    assert(ff * (SCALE * after) >= ff * (SCALE * (r * r) - 6 * (r * k)));
    assert(SCALE * after >= SCALE * (r * r) - 6 * (r * k)) by (nonlinear_arith)
        requires
            ff * (SCALE * after) >= ff * (SCALE * (r * r) - 6 * (r * k)),
            ff == f * f,
            f >= 1,
    ;
}

/// No coordinate of a vector is longer than the vector.
proof fn lemma_coordinate_within(a: int, b: int, c: int, len: int)
    requires
        0 <= len,
        a * a + b * b + c * c < (len + 1) * (len + 1),
    ensures
        magnitude(a) <= len,
{
    assert(magnitude(a) <= len) by (nonlinear_arith)
        requires
            a * a + b * b + c * c < (len + 1) * (len + 1),
            0 <= len,
            magnitude(a) == a || magnitude(a) == -a,
            magnitude(a) >= 0,
    ;
}

/// No coordinate of a magnified vector is longer than the magnified vector.
proof fn lemma_coordinate_within_fine(a: int, b: int, c: int, f: int, m: int)
    requires
        0 <= m,
        1 <= f,
        (a * a + b * b + c * c) * (f * f) < (m + 1) * (m + 1),
    ensures
        magnitude(a) * f <= m,
        0 <= magnitude(a) * f,
{
    let h = magnitude(a);
    assert((h * f) * (h * f) <= (a * a + b * b + c * c) * (f * f)) by (nonlinear_arith)
        requires
            h == a || h == -a,
    ;
    assert(h * f >= 0) by (nonlinear_arith)
        requires
            h >= 0,
            f >= 1,
    ;
    assert(h * f <= m) by (nonlinear_arith)
        requires
            (h * f) * (h * f) < (m + 1) * (m + 1),
            0 <= m,
            0 <= h * f,
    ;
}

/// One coordinate of a normalized vector, against the same coordinate of
/// the magnified vector: the rounding takes less than one raw step.
proof fn lemma_unit_coordinate(g: int, f: int, m: int)
    requires
        1 <= f,
        1 <= m,
        magnitude(g) * f <= m,
    ensures
        ({
            let n = quot(g * (SCALE * f), m);
            let a = magnitude(g) * f;
            &&& -SCALE <= n <= SCALE
            &&& m * (m * (n * n)) <= SCALE * (SCALE * (a * a))
            &&& m * (m * (n * n)) >= SCALE * (SCALE * (a * a)) - 2 * (m * (SCALE * a))
        }),
{
    let h = magnitude(g);
    let a = h * f;
    let n = quot(g * (SCALE * f), m);
    let np = quot(h * (SCALE * f), m);
    lemma_widened(g, f, m, 0, 0);
    if g < 0 {
        lemma_quot_neg(g * (SCALE * f), m);
        assert((-g) * (SCALE * f) == -(g * (SCALE * f))) by (nonlinear_arith);
    }
    assert(n == np || n == -np);
    assert(n * n == np * np) by (nonlinear_arith)
        requires
            n == np || n == -np,
    ;
    let top = h * (SCALE * f);
    assert(top == SCALE * a && 0 <= top) by (nonlinear_arith)
        requires
            top == h * (SCALE * f),
            a == h * f,
            0 <= h,
            1 <= f,
            SCALE == 1_000_000,
    ;
    assert(m * np <= top < m * np + m && 0 <= np) by (nonlinear_arith)
        requires
            np == top / m,
            m >= 1,
            0 <= top,
    ;
    let x = m * np;
    let y = SCALE * a;
    assert(x * x <= y * y) by (nonlinear_arith)
        requires
            0 <= x <= y,
    ;
    assert(0 <= x) by (nonlinear_arith)
        requires
            x == m * np,
            m >= 1,
            np >= 0,
    ;
    lemma_square_short(x, y, m);
    assert(x * x == m * (m * (np * np))) by (nonlinear_arith)
        requires
            x == m * np,
    ;
    assert(y * y == SCALE * (SCALE * (a * a))) by (nonlinear_arith)
        requires
            y == SCALE * a,
    ;
    assert(y * m == m * (SCALE * a)) by (nonlinear_arith)
        requires
            y == SCALE * a,
    ;
}

/// The square of a magnified coordinate.
proof fn lemma_magnified_square(g: int, f: int)
    ensures
        (magnitude(g) * f) * (magnitude(g) * f) == (g * g) * (f * f),
{
    let h = magnitude(g);
    assert((h * f) * (h * f) == (g * g) * (f * f)) by (nonlinear_arith)
        requires
            h == g || h == -g,
    ;
}

/// A normal is a unit vector: the squared length of a normalized vector
/// differs from the square of one whole unit by a few millionths of it at
/// most, the trace of rounding each coordinate toward zero.
pub proof fn law_normal_is_unit(g: V3)
    ensures
        SCALE * SCALE - 6 * SCALE <= g.normalized().norm_sq() <= SCALE * SCALE + 2 * SCALE,
{
    let n2 = g.norm_sq();
    if n2 != 0 {
        let f = g.refinement();
        let m = g.fine_length();
        let t = n2 * (f * f);
        assert(n2 > 0) by (nonlinear_arith)
            requires
                n2 == g.x * g.x + g.y * g.y + g.z * g.z,
                n2 != 0,
        ;
        assert(t >= n2 && (f == SCALE ==> t >= SCALE * SCALE)) by (nonlinear_arith)
            requires
                t == n2 * (f * f),
                f >= 1,
                n2 >= 1,
        ;
        lemma_floor_sqrt_exists(t);
        assert(m >= SCALE) by (nonlinear_arith)
            requires
                t < (m + 1) * (m + 1),
                0 <= m,
                t >= SCALE * SCALE,
                SCALE == 1_000_000,
        ;
        lemma_coordinate_within_fine(g.x, g.y, g.z, f, m);
        lemma_coordinate_within_fine(g.y, g.x, g.z, f, m);
        lemma_coordinate_within_fine(g.z, g.x, g.y, f, m);
        lemma_unit_coordinate(g.x, f, m);
        lemma_unit_coordinate(g.y, f, m);
        lemma_unit_coordinate(g.z, f, m);
        let n = g.normalized();
        assert(n.x == quot(g.x * (SCALE * f), m));
        assert(n.y == quot(g.y * (SCALE * f), m));
        assert(n.z == quot(g.z * (SCALE * f), m));
        let ax = magnitude(g.x) * f;
        let ay = magnitude(g.y) * f;
        let az = magnitude(g.z) * f;
        let unit = n.norm_sq();
        lemma_magnified_square(g.x, f);
        lemma_magnified_square(g.y, f);
        lemma_magnified_square(g.z, f);
        assert(ax * ax + ay * ay + az * az == t) by (nonlinear_arith)
            requires
                t == (g.x * g.x + g.y * g.y + g.z * g.z) * (f * f),
                ax * ax == (g.x * g.x) * (f * f),
                ay * ay == (g.y * g.y) * (f * f),
                az * az == (g.z * g.z) * (f * f),
        ;
        assert(m * (m * unit) == m * (m * (n.x * n.x)) + m * (m * (n.y * n.y)) + m * (m * (n.z
            * n.z))) by (nonlinear_arith)
            requires
                unit == n.x * n.x + n.y * n.y + n.z * n.z,
        ;
        assert(SCALE * (SCALE * t) == SCALE * (SCALE * (ax * ax)) + SCALE * (SCALE * (ay * ay))
            + SCALE * (SCALE * (az * az)));
        assert(m * (SCALE * (ax + ay + az)) == m * (SCALE * ax) + m * (SCALE * ay) + m * (SCALE
            * az)) by (nonlinear_arith);
        // above: m^2 |n|^2 <= S^2 t < S^2 (m + 1)^2 <= (S + 1)^2 m^2
        assert(SCALE * (SCALE * t) < (SCALE * SCALE + 2 * SCALE + 1) * (m * m)) by (nonlinear_arith)
            requires
                t < (m + 1) * (m + 1),
                m >= SCALE,
                SCALE == 1_000_000,
        ;
        assert(unit <= SCALE * SCALE + 2 * SCALE) by (nonlinear_arith)
            requires
                m * (m * unit) < (SCALE * SCALE + 2 * SCALE + 1) * (m * m),
                m >= 1,
        ;
        // below: m^2 |n|^2 >= S^2 t - 2 m S (ax + ay + az) >= S^2 m^2 - 6 S m^2
        assert(SCALE * (SCALE * t) >= SCALE * SCALE * (m * m)) by (nonlinear_arith)
            requires
                t >= m * m,
                SCALE == 1_000_000,
        ;
        assert(m * (SCALE * (ax + ay + az)) <= 3 * SCALE * (m * m)) by (nonlinear_arith)
            requires
                0 <= ax <= m,
                0 <= ay <= m,
                0 <= az <= m,
                m >= 1,
                SCALE == 1_000_000,
        ;
        assert(m * (m * unit) >= SCALE * (SCALE * t) - 2 * (m * (SCALE * (ax + ay + az))));
        assert(m * (m * unit) >= SCALE * SCALE * (m * m) - 6 * SCALE * (m * m)) by (nonlinear_arith)
            requires
                m * (m * unit) >= SCALE * (SCALE * t) - 2 * (m * (SCALE * (ax + ay + az))),
                SCALE * (SCALE * t) >= SCALE * SCALE * (m * m),
                m * (SCALE * (ax + ay + az)) <= 3 * SCALE * (m * m),
                SCALE == 1_000_000,
        ;
        assert(unit >= SCALE * SCALE - 6 * SCALE) by (nonlinear_arith)
            requires
                m * (m * unit) >= SCALE * SCALE * (m * m) - 6 * SCALE * (m * m),
                m >= 1,
                SCALE == 1_000_000,
        ;
    }
}

/// The part of a penetration that falls to one of two masses lies between
/// nothing and all of it.
proof fn lemma_share_within(pen: int, m: int, total: int)
    requires
        0 <= pen,
        0 < m < total,
    ensures
        0 <= quot(pen * m, total) <= pen,
{
    assert(0 <= pen * m <= pen * total) by (nonlinear_arith)
        requires
            0 <= pen,
            0 < m < total,
    ;
    assert(0 <= (pen * m) / total <= pen) by (nonlinear_arith)
        requires
            0 <= pen * m <= pen * total,
            0 < total,
            0 <= pen,
    ;
}

/// How far a contact of depth `penetration` pushes each of its bodies: the
/// first against the normal, the second along it.
pub open spec fn pushes(a: BodyModel, b: BodyModel, penetration: int) -> (int, int) {
    match (a.kind, b.kind) {
        (BodyKind::Dynamic, BodyKind::Dynamic) => correction_shares(a.mass, b.mass, penetration),
        (BodyKind::Dynamic, BodyKind::Static) => (penetration, 0),
        (BodyKind::Static, BodyKind::Dynamic) => (0, penetration),
        (BodyKind::Static, BodyKind::Static) => (0, 0),
    }
}

/// Whether a body at `p` can be moved by `shift` along `n` without a
/// coordinate being pinned to the range.
pub open spec fn push_fits(p: V3, n: V3, shift: int) -> bool {
    &&& representable(p.x + fx_mul(n.x, shift))
    &&& representable(p.y + fx_mul(n.y, shift))
    &&& representable(p.z + fx_mul(n.z, shift))
}

/// Whether the contact between `a` and `b` can be resolved without the sum
/// of the radii or a coordinate of a new position being pinned to the range.
pub open spec fn separation_fits(a: BodyModel, b: BodyModel) -> bool {
    let c = contact_of(a, b).unwrap();
    let p = pushes(a, b, c.penetration);
    &&& representable(a.shape.bounding_radius() + b.shape.bounding_radius())
    &&& push_fits(a.position(), c.normal, -p.0)
    &&& push_fits(b.position(), c.normal, p.1)
}

/// The most that rounding can take from the distance between two bodies
/// when a contact of depth `penetration` is resolved: six raw steps for each
/// whole unit of penetration, and eighteen more.
pub open spec fn slack(penetration: int) -> int {
    6 * (penetration / (SCALE as int) + 3)
}

/// A gap whose square is below the square of a representable reach was not
/// pinned when it was formed.
proof fn lemma_gap_not_pinned(p: int, q: int, other: int, r: int)
    requires
        representable(p),
        representable(q),
        0 < r <= i64::MAX,
        0 <= other,
        fx_sub(q, p) * fx_sub(q, p) + other < r * r,
    ensures
        fx_sub(q, p) == q - p,
{
    let g = fx_sub(q, p);
    if g != q - p {
        assert(g * g >= r * r) by (nonlinear_arith)
            requires
                g == i64::MAX || g == i64::MIN,
                0 < r <= i64::MAX,
        ;
    }
}

/// The gap `g` after the bodies at its ends are pushed apart along `n`.
pub open spec fn widened_gap(g: V3, n: V3, s: int, t: int) -> V3 {
    V3 {
        x: g.x + widening(n.x, s, t),
        y: g.y + widening(n.y, s, t),
        z: g.z + widening(n.z, s, t),
    }
}

/// What the narrow phase measures between two valid overlapping bodies whose
/// radii add up within the range.
proof fn lemma_contact_facts(a: BodyModel, b: BodyModel)
    requires
        a.wf(),
        b.wf(),
        overlapping(a, b),
        representable(a.shape.bounding_radius() + b.shape.bounding_radius()),
    ensures
        ({
            let c = contact_of(a, b).unwrap();
            let g = gap(a, b);
            let len = g.length();
            let r = reach(a, b);
            let p = pushes(a, b, c.penetration);
            &&& 0 < r <= i64::MAX
            &&& g.x == b.position().x - a.position().x
            &&& g.y == b.position().y - a.position().y
            &&& g.z == b.position().z - a.position().z
            &&& is_floor_sqrt(g.norm_sq(), len)
            &&& c.penetration == r - len
            &&& c.penetration > 0
            &&& 0 <= p.0
            &&& 0 <= p.1
            &&& (a.is_dynamic() || b.is_dynamic()) ==> p.0 + p.1 == c.penetration
            &&& magnitude(g.x) <= len && magnitude(g.y) <= len && magnitude(g.z) <= len
            &&& -SCALE <= c.normal.x <= SCALE
            &&& -SCALE <= c.normal.y <= SCALE
            &&& -SCALE <= c.normal.z <= SCALE
            &&& g.norm_sq() == 0 ==> len == 0 && c.normal == V3::unit_y()
            &&& g.norm_sq() != 0 ==> len >= 1 && g.fine_length() >= 1 && is_floor_sqrt(
                g.norm_sq() * (g.refinement() * g.refinement()),
                g.fine_length(),
            ) && c.normal == (V3 {
                x: quot(g.x * (SCALE * g.refinement()), g.fine_length()),
                y: quot(g.y * (SCALE * g.refinement()), g.fine_length()),
                z: quot(g.z * (SCALE * g.refinement()), g.fine_length()),
            })
        }),
{
    let c = contact_of(a, b).unwrap();
    let r = reach(a, b);
    let g = gap(a, b);
    let n2 = g.norm_sq();
    let pa = a.position();
    let pb = b.position();
    assert(r == a.shape.bounding_radius() + b.shape.bounding_radius());
    assert(r > 0);
    assert(g.x * g.x >= 0 && g.y * g.y >= 0 && g.z * g.z >= 0) by (nonlinear_arith);
    lemma_gap_not_pinned(pa.x, pb.x, g.y * g.y + g.z * g.z, r);
    lemma_gap_not_pinned(pa.y, pb.y, g.x * g.x + g.z * g.z, r);
    lemma_gap_not_pinned(pa.z, pb.z, g.x * g.x + g.y * g.y, r);
    lemma_floor_sqrt_exists(n2);
    let len = g.length();
    lemma_penetration_positive(a, b);
    let pen = c.penetration;
    if a.kind == BodyKind::Dynamic && b.kind == BodyKind::Dynamic {
        lemma_share_within(pen, b.mass, a.mass + b.mass);
    }
    lemma_coordinate_within(g.x, g.y, g.z, len);
    lemma_coordinate_within(g.y, g.x, g.z, len);
    lemma_coordinate_within(g.z, g.x, g.y, len);
    if n2 == 0 {
        assert(len == 0) by (nonlinear_arith)
            requires
                0 <= len,
                len * len <= 0,
        ;
    } else {
        assert(len >= 1) by (nonlinear_arith)
            requires
                n2 > 0,
                0 <= len,
                n2 < (len + 1) * (len + 1),
        ;
        let f = g.refinement();
        let m = g.fine_length();
        let magnified = n2 * (f * f);
        assert(magnified >= n2) by (nonlinear_arith)
            requires
                magnified == n2 * (f * f),
                f >= 1,
                n2 >= 0,
        ;
        lemma_floor_sqrt_exists(magnified);
        assert(m >= 1) by (nonlinear_arith)
            requires
                magnified > 0,
                0 <= m,
                magnified < (m + 1) * (m + 1),
        ;
        lemma_coordinate_within_fine(g.x, g.y, g.z, f, m);
        lemma_coordinate_within_fine(g.y, g.x, g.z, f, m);
        lemma_coordinate_within_fine(g.z, g.x, g.y, f, m);
        lemma_widened(g.x, f, m, 0, 0);
        lemma_widened(g.y, f, m, 0, 0);
        lemma_widened(g.z, f, m, 0, 0);
    }
}

/// The gap between the two bodies of a resolved contact is the gap they had,
/// widened by the pushes.
proof fn lemma_resolved_gap(a: BodyModel, b: BodyModel)
    requires
        a.wf(),
        b.wf(),
        overlapping(a, b),
        a.is_dynamic() || b.is_dynamic(),
        separation_fits(a, b),
    ensures
        ({
            let c = contact_of(a, b).unwrap();
            let after = resolved(a, b, c);
            let p = pushes(a, b, c.penetration);
            gap(after.0, after.1) == widened_gap(gap(a, b), c.normal, p.1, p.0)
        }),
{
    let c = contact_of(a, b).unwrap();
    let after = resolved(a, b, c);
    let p = pushes(a, b, c.penetration);
    let t = p.0;
    let s = p.1;
    let n = c.normal;
    let g = gap(a, b);
    let pa = a.position();
    let pb = b.position();
    let len = g.length();
    let r = reach(a, b);
    lemma_contact_facts(a, b);
    lemma_pushed_apart(pa.x, pb.x, n.x, s, t);
    lemma_pushed_apart(pa.y, pb.y, n.y, s, t);
    lemma_pushed_apart(pa.z, pb.z, n.z, s, t);
    lemma_within_reach(g.x, n.x, s, t, len, r);
    lemma_within_reach(g.y, n.y, s, t, len, r);
    lemma_within_reach(g.z, n.z, s, t, len, r);
    assert(after.0.position() == pa.plus(n.scaled(-t))) by {
        if a.kind == BodyKind::Static {
            lemma_pushed_apart(pa.x, pa.x, n.x, 0, 0);
            lemma_pushed_apart(pa.y, pa.y, n.y, 0, 0);
            lemma_pushed_apart(pa.z, pa.z, n.z, 0, 0);
        }
    }
    assert(after.1.position() == pb.plus(n.scaled(s))) by {
        if b.kind == BodyKind::Static {
            lemma_pushed_apart(pb.x, pb.x, n.x, 0, 0);
            lemma_pushed_apart(pb.y, pb.y, n.y, 0, 0);
            lemma_pushed_apart(pb.z, pb.z, n.z, 0, 0);
        }
    }
}

/// No sustained penetration: once a contact between two bodies, at least
/// one of them dynamic, is resolved, the squared distance of their centres
/// is the squared sum of their radii, short of at most
/// `6 * reach * (penetration / SCALE + 2)`; and so their distance is the sum
/// of their radii less at most the slack.
pub proof fn law_no_sustained_penetration(a: BodyModel, b: BodyModel)
    requires
        a.wf(),
        b.wf(),
        overlapping(a, b),
        a.is_dynamic() || b.is_dynamic(),
        separation_fits(a, b),
    ensures
        ({
            let c = contact_of(a, b).unwrap();
            let after = resolved(a, b, c);
            let r = reach(a, b);
            &&& SCALE * gap(after.0, after.1).norm_sq() >= SCALE * (r * r) - 6 * (r * (
            c.penetration + 2 * SCALE))
            &&& gap(after.0, after.1).length() >= r - slack(c.penetration)
        }),
{
    let c = contact_of(a, b).unwrap();
    let r = reach(a, b);
    let g = gap(a, b);
    let len = g.length();
    let pen = c.penetration;
    let p = pushes(a, b, pen);
    let wide = widened_gap(g, c.normal, p.1, p.0);
    lemma_contact_facts(a, b);
    lemma_resolved_gap(a, b);
    if g.norm_sq() == 0 {
        lemma_quot_push(p.1);
        lemma_quot_push(p.0);
        assert(wide == (V3 { x: 0, y: pen, z: 0 }));
        assert(wide.norm_sq() == r * r);
        assert(r * (pen + 2 * SCALE) >= 0) by (nonlinear_arith)
            requires
                r > 0,
                pen > 0,
                SCALE == 1_000_000,
        ;
    } else {
        lemma_gap_widened(g, g.refinement(), g.fine_length(), len, p.1, p.0);
    }
    assert(wide.norm_sq() >= 0) by (nonlinear_arith)
        requires
            wide.norm_sq() == wide.x * wide.x + wide.y * wide.y + wide.z * wide.z,
    ;
    lemma_distance_from_square(wide.norm_sq(), r, pen);
}

/// Exact separation along an axis: where the centres of the two bodies of a
/// contact differ in one coordinate at most, nothing is rounded, and the
/// resolved contact leaves them at exactly the sum of their radii from each
/// other, no longer overlapping.
pub proof fn law_exact_separation_on_axis(a: BodyModel, b: BodyModel, k: int)
    requires
        a.wf(),
        b.wf(),
        overlapping(a, b),
        a.is_dynamic() || b.is_dynamic(),
        separation_fits(a, b),
        0 <= k <= 2,
        k != 0 ==> gap(a, b).x == 0,
        k != 1 ==> gap(a, b).y == 0,
        k != 2 ==> gap(a, b).z == 0,
    ensures
        ({
            let after = resolved(a, b, contact_of(a, b).unwrap());
            &&& gap(after.0, after.1).norm_sq() == reach(a, b) * reach(a, b)
            &&& gap(after.0, after.1).length() == reach(a, b)
            &&& !overlapping(after.0, after.1)
        }),
{
    let c = contact_of(a, b).unwrap();
    let after = resolved(a, b, c);
    let r = reach(a, b);
    let g = gap(a, b);
    let len = g.length();
    let pen = c.penetration;
    let p = pushes(a, b, pen);
    let wide = widened_gap(g, c.normal, p.1, p.0);
    lemma_contact_facts(a, b);
    lemma_resolved_gap(a, b);
    lemma_quot_push(p.1);
    lemma_quot_push(p.0);
    if g.norm_sq() == 0 {
        assert(wide == (V3 { x: 0, y: pen, z: 0 }));
    } else {
        let along = if k == 0 { g.x } else if k == 1 { g.y } else { g.z };
        assert(g.norm_sq() == along * along);
        assert(len == magnitude(along)) by (nonlinear_arith)
            requires
                0 <= len,
                len * len <= along * along,
                along * along < (len + 1) * (len + 1),
                magnitude(along) == along || magnitude(along) == -along,
                magnitude(along) >= 0,
        ;
        let f = g.refinement();
        let m = g.fine_length();
        assert(g.norm_sq() * (f * f) == (along * f) * (along * f)) by (nonlinear_arith)
            requires
                g.norm_sq() == along * along,
        ;
        assert(magnitude(along * f) == len * f && len * f >= 1) by (nonlinear_arith)
            requires
                len == magnitude(along),
                len >= 1,
                f >= 1,
                magnitude(along * f) == along * f || magnitude(along * f) == -(along * f),
                magnitude(along * f) >= 0,
                magnitude(along) == along || magnitude(along) == -along,
        ;
        assert(m == len * f) by (nonlinear_arith)
            requires
                0 <= m,
                m * m <= (along * f) * (along * f),
                (along * f) * (along * f) < (m + 1) * (m + 1),
                magnitude(along * f) == along * f || magnitude(along * f) == -(along * f),
                magnitude(along * f) == len * f,
                len * f >= 1,
        ;
        lemma_quot_sign(along, len, f);
        lemma_quot_push(p.1);
        lemma_quot_push(p.0);
        assert(magnitude(along + widening(quot(along * (SCALE * f), m), p.1, p.0)) == r);
    }
    assert(wide.norm_sq() == r * r) by (nonlinear_arith)
        requires
            wide.norm_sq() == wide.x * wide.x + wide.y * wide.y + wide.z * wide.z,
            (magnitude(wide.x) == r && wide.y == 0 && wide.z == 0) || (wide.x == 0 && magnitude(
                wide.y,
            ) == r && wide.z == 0) || (wide.x == 0 && wide.y == 0 && magnitude(wide.z) == r),
            magnitude(wide.x) == wide.x || magnitude(wide.x) == -wide.x,
            magnitude(wide.y) == wide.y || magnitude(wide.y) == -wide.y,
            magnitude(wide.z) == wide.z || magnitude(wide.z) == -wide.z,
    ;
    assert(is_floor_sqrt(r * r, r)) by (nonlinear_arith)
        requires
            r > 0,
    ;
    lemma_floor_sqrt_is(r * r, r);
    assert(reach(after.0, after.1) == r);
}

/// A coordinate divided by its own magnitude is a whole unit with its sign.
proof fn lemma_quot_sign(g: int, len: int, f: int)
    requires
        len == magnitude(g),
        len >= 1,
        f >= 1,
    ensures
        g > 0 ==> quot(g * (SCALE * f), len * f) == SCALE,
        g < 0 ==> quot(g * (SCALE * f), len * f) == -SCALE,
        quot(0 * (SCALE * f), len * f) == 0,
{
    let d = len * f;
    assert(d >= 1) by (nonlinear_arith)
        requires
            d == len * f,
            len >= 1,
            f >= 1,
    ;
    assert(len * (SCALE * f) == d * SCALE && (-len) * (SCALE * f) == -(d * SCALE) && 0 * (SCALE
        * f) == 0) by (nonlinear_arith)
        requires
            d == len * f,
    ;
    assert((d * SCALE) / d == SCALE && d * SCALE >= 0) by (nonlinear_arith)
        requires
            d >= 1,
            SCALE == 1_000_000,
    ;
    assert(0int / d == 0) by (nonlinear_arith)
        requires
            d >= 1,
    ;
}

/// A push along a whole unit normal, up or down its axis, is not rounded.
proof fn lemma_quot_push(s: int)
    ensures
        quot(SCALE * s, SCALE as int) == s,
        quot((-SCALE) * s, SCALE as int) == -s,
        quot(0 * s, SCALE as int) == 0,
{
}

/// One coordinate of the two pushes: the first body moves against the
/// normal by `t`, the second along it by `s`, and the gap between them gains
/// the widening.
proof fn lemma_pushed_apart(pa: int, pb: int, n: int, s: int, t: int)
    requires
        -SCALE <= n <= SCALE,
        0 <= s <= i64::MAX,
        0 <= t <= i64::MAX,
        representable(pa),
        representable(pb),
        representable(pa + fx_mul(n, -t)),
        representable(pb + fx_mul(n, s)),
    ensures
        fx_add(pb, fx_mul(n, s)) - fx_add(pa, fx_mul(n, -t)) == (pb
            - pa) + widening(n, s, t),
{
    lemma_unit_product(n, s);
    lemma_unit_product(n, t);
    assert(n * (-t) == -(n * t)) by (nonlinear_arith);
    lemma_quot_neg(n * t, SCALE as int);
}

/// A product with a coordinate of a unit vector is no larger than the other
/// factor.
proof fn lemma_unit_product(n: int, s: int)
    requires
        -SCALE <= n <= SCALE,
        0 <= s,
    ensures
        -s <= quot(n * s, SCALE as int) <= s,
{
    assert(-(SCALE * s) <= n * s <= SCALE * s) by (nonlinear_arith)
        requires
            -SCALE <= n <= SCALE,
            0 <= s,
    ;
}

/// A widened coordinate stays within the sum of the radii.
proof fn lemma_within_reach(g: int, n: int, s: int, t: int, len: int, r: int)
    requires
        magnitude(g) <= len,
        r == len + s + t,
        0 <= s,
        0 <= t,
        -SCALE <= n <= SCALE,
    ensures
        -r <= g + widening(n, s, t) <= r,
{
    lemma_unit_product(n, s);
    lemma_unit_product(n, t);
}

/// From the bound on the squared distance to the bound on the distance.
proof fn lemma_distance_from_square(n2: int, r: int, pen: int)
    requires
        0 <= n2,
        0 < pen <= r,
        SCALE * n2 >= SCALE * (r * r) - 6 * (r * (pen + 2 * SCALE)),
    ensures
        floor_sqrt(n2) >= r - slack(pen),
{
    let eps = slack(pen);
    lemma_floor_sqrt_exists(n2);
    let d = floor_sqrt(n2);
    if r >= eps {
        assert(SCALE * eps >= 6 * (pen + 2 * SCALE));
        assert(SCALE * (r * eps) >= 6 * (r * (pen + 2 * SCALE))) by (nonlinear_arith)
            requires
                SCALE * eps >= 6 * (pen + 2 * SCALE),
                r > 0,
        ;
        assert(SCALE * n2 >= SCALE * (r * r - r * eps)) by (nonlinear_arith)
            requires
                SCALE * n2 >= SCALE * (r * r) - 6 * (r * (pen + 2 * SCALE)),
                SCALE * (r * eps) >= 6 * (r * (pen + 2 * SCALE)),
        ;
        assert(n2 >= r * r - r * eps);
        assert((r - eps) * (r - eps) <= r * r - r * eps) by (nonlinear_arith)
            requires
                0 <= eps <= r,
        ;
        assert(d >= r - eps) by (nonlinear_arith)
            requires
                n2 < (d + 1) * (d + 1),
                (r - eps) * (r - eps) <= n2,
                0 <= d,
                0 <= r - eps,
        ;
    }
}

} // verus!
