//! What holds of a single collision, proved from the definitions of the
//! narrow phase and of the resolver.

use crate::body::{representable, representable_v3, BodyKind, BodyModel};
use crate::narrow_phase::ContactModel;
use crate::resolver::{elastic_speeds, normal_speed, resolved, with_normal_speed};
use crate::scalar::{fx_mul, fx_neg, quot, SCALE};
use crate::vector::V3;
use vstd::prelude::*;

verus! {

/// The unit vector along axis `k` (0, 1 or 2), pointing up the axis for a
/// `sign` of 1 and down it for a `sign` of -1.
pub open spec fn axis_unit(k: int, sign: int) -> V3 {
    V3 {
        x: if k == 0 { sign * SCALE } else { 0 },
        y: if k == 1 { sign * SCALE } else { 0 },
        z: if k == 2 { sign * SCALE } else { 0 },
    }
}

/// The coordinate of `v` on axis `k`.
pub open spec fn coordinate(v: V3, k: int) -> int {
    if k == 0 {
        v.x
    } else if k == 1 {
        v.y
    } else {
        v.z
    }
}

/// Along an axis nothing is rounded: the normal speed is the coordinate on
/// that axis, taken with the sign of the normal, and setting a new normal
/// speed changes that coordinate alone.
pub proof fn lemma_axis_normal(v: V3, k: int, sign: int, speed: int)
    requires
        0 <= k <= 2,
        sign == 1 || sign == -1,
        representable_v3(v),
        representable(-coordinate(v, k)),
        representable(speed),
        representable(-speed),
    ensures
        normal_speed(v, axis_unit(k, sign)) == sign * coordinate(v, k),
        coordinate(with_normal_speed(v, axis_unit(k, sign), speed), k) == sign * speed,
        forall|other: int|
            0 <= other <= 2 && other != k ==> coordinate(
                with_normal_speed(v, axis_unit(k, sign), speed),
                other,
            ) == coordinate(v, other),
{
    let n = axis_unit(k, sign);
    let u = normal_speed(v, n);
    lemma_quot_unit(v.x, sign);
    lemma_quot_unit(v.y, sign);
    lemma_quot_unit(v.z, sign);
    assert(u == sign * coordinate(v, k));
    lemma_quot_unit(u, sign);
    lemma_quot_unit(speed, sign);
    assert(sign * (sign * coordinate(v, k)) == coordinate(v, k));
    assert(n.scaled(u) == axis_push(k, coordinate(v, k)));
    assert(n.scaled(speed) == axis_push(k, sign * speed));
}

/// Multiplying by a signed unit only sets the sign, and multiplying by zero
/// gives zero.
proof fn lemma_quot_unit(x: int, sign: int)
    requires
        sign == 1 || sign == -1,
    ensures
        quot(x * (sign * SCALE), SCALE as int) == sign * x,
        quot((sign * SCALE) * x, SCALE as int) == sign * x,
        quot(x * 0, SCALE as int) == 0,
        quot(0 * x, SCALE as int) == 0,
{
    let unit = sign * SCALE;
    if sign == 1 {
        assert(unit == 1_000_000);
        assert(x * unit == x * 1_000_000 && unit * x == x * 1_000_000) by (nonlinear_arith)
            requires
                unit == 1_000_000,
        ;
    } else {
        assert(unit == -1_000_000);
        assert(x * unit == -(x * 1_000_000) && unit * x == -(x * 1_000_000))
            by (nonlinear_arith)
            requires
                unit == -1_000_000,
        ;
    }
}

/// The step of length `by` along axis `k`.
pub open spec fn axis_push(k: int, by: int) -> V3 {
    V3 { x: if k == 0 { by } else { 0 }, y: if k == 1 { by } else { 0 }, z: if k == 2 { by } else { 0 } }
}

/// Static reflection along an axis: a dynamic body that meets a static one
/// along a coordinate axis leaves with that coordinate of its velocity
/// reversed and the other two as they were; the static body is untouched.
pub proof fn law_static_reflection_on_axis(
    a: BodyModel,
    b: BodyModel,
    c: ContactModel,
    k: int,
    sign: int,
)
    requires
        a.wf(),
        b.wf(),
        a.kind == BodyKind::Dynamic,
        b.kind == BodyKind::Static,
        0 <= k <= 2,
        sign == 1 || sign == -1,
        c.normal == axis_unit(k, sign),
        representable(-coordinate(a.velocity, k)),
    ensures
        coordinate(resolved(a, b, c).0.velocity, k) == -coordinate(a.velocity, k),
        forall|other: int|
            0 <= other <= 2 && other != k ==> coordinate(resolved(a, b, c).0.velocity, other)
                == coordinate(a.velocity, other),
        resolved(a, b, c).1 == b,
{
    let u = normal_speed(a.velocity, c.normal);
    lemma_axis_normal(a.velocity, k, sign, 0);
    assert(u == sign * coordinate(a.velocity, k));
    lemma_axis_normal(a.velocity, k, sign, fx_neg(u));
}

/// Rounding toward zero commutes with negation.
pub proof fn lemma_quot_neg(a: int, b: int)
    requires
        b > 0,
    ensures
        quot(-a, b) == -quot(a, b),
{
    if a == 0 {
        assert(0int / b == 0) by (nonlinear_arith)
            requires
                b > 0,
        ;
    }
}

/// A product that is not pinned to the range changes sign with either
/// factor.
pub proof fn lemma_fx_mul_neg(a: int, b: int)
    requires
        representable(quot(a * b, SCALE as int)),
        representable(-quot(a * b, SCALE as int)),
    ensures
        fx_mul(a, -b) == -fx_mul(a, b),
{
    assert(a * (-b) == -(a * b)) by (nonlinear_arith);
    lemma_quot_neg(a * b, SCALE as int);
}

/// Whether the product of `a` and `b` can be formed and negated without
/// being pinned to the range.
pub open spec fn product_fits(a: int, b: int) -> bool {
    representable(quot(a * b, SCALE as int)) && representable(-quot(a * b, SCALE as int))
}

/// Whether mirroring the part of `v` along `n` stays within the range in
/// every coordinate.
pub open spec fn reflection_fits(v: V3, n: V3) -> bool {
    let u = normal_speed(v, n);
    &&& representable(-u)
    &&& product_fits(n.x, u) && product_fits(n.y, u) && product_fits(n.z, u)
    &&& representable(v.x - fx_mul(n.x, u)) && representable(v.x - 2 * fx_mul(n.x, u))
    &&& representable(v.y - fx_mul(n.y, u)) && representable(v.y - 2 * fx_mul(n.y, u))
    &&& representable(v.z - fx_mul(n.z, u)) && representable(v.z - 2 * fx_mul(n.z, u))
}

/// Static reflection, for any normal: the dynamic body's velocity changes by
/// twice its part along the normal, against the normal, and by nothing
/// else; the static body is untouched.
pub proof fn law_static_reflection(a: BodyModel, b: BodyModel, c: ContactModel)
    requires
        a.wf(),
        b.wf(),
        a.kind == BodyKind::Dynamic,
        b.kind == BodyKind::Static,
        reflection_fits(a.velocity, c.normal),
    ensures
        resolved(a, b, c).0.velocity == (V3 {
            x: a.velocity.x - 2 * fx_mul(c.normal.x, normal_speed(a.velocity, c.normal)),
            y: a.velocity.y - 2 * fx_mul(c.normal.y, normal_speed(a.velocity, c.normal)),
            z: a.velocity.z - 2 * fx_mul(c.normal.z, normal_speed(a.velocity, c.normal)),
        }),
        resolved(a, b, c).1 == b,
{
    let n = c.normal;
    let u = normal_speed(a.velocity, n);
    lemma_fx_mul_neg(n.x, u);
    lemma_fx_mul_neg(n.y, u);
    lemma_fx_mul_neg(n.z, u);
}

/// Equal masses exchange their speeds: after an elastic collision on a line
/// each of two equal masses moves as the other did before.
pub proof fn law_equal_masses_exchange_speeds(m: int, u1: int, u2: int)
    requires
        m > 0,
        representable(u1),
        representable(u2),
        representable(u2 - u1),
    ensures
        elastic_speeds(m, u1, m, u2) == (u2, u1),
{
    let closing = u2 - u1;
    assert(quot(2 * m * closing, m + m) == closing) by {
        lemma_quot_neg(2 * m * closing, m + m);
        if closing >= 0 {
            assert((2 * m * closing) / (m + m) == closing) by (nonlinear_arith)
                requires
                    m > 0,
                    closing >= 0,
            ;
            assert(2 * m * closing >= 0) by (nonlinear_arith)
                requires
                    m > 0,
                    closing >= 0,
            ;
        } else {
            assert((-(2 * m * closing)) / (m + m) == -closing) by (nonlinear_arith)
                requires
                    m > 0,
                    closing < 0,
            ;
            assert(2 * m * closing < 0) by (nonlinear_arith)
                requires
                    m > 0,
                    closing < 0,
            ;
        }
    }
}

/// Head-on collision of equal masses along an axis: the two bodies exchange
/// their velocities along that axis and keep the rest, so that their total
/// momentum and their total kinetic energy are what they were. Bodies that
/// met at equal and opposite speeds each leave at the speed they came with,
/// reversed.
pub proof fn law_head_on_equal_masses(
    a: BodyModel,
    b: BodyModel,
    c: ContactModel,
    k: int,
    sign: int,
)
    requires
        a.wf(),
        b.wf(),
        a.kind == BodyKind::Dynamic,
        b.kind == BodyKind::Dynamic,
        a.mass == b.mass,
        0 <= k <= 2,
        sign == 1 || sign == -1,
        c.normal == axis_unit(k, sign),
        representable(-coordinate(a.velocity, k)),
        representable(-coordinate(b.velocity, k)),
        representable(coordinate(b.velocity, k) - coordinate(a.velocity, k)),
        representable(coordinate(a.velocity, k) - coordinate(b.velocity, k)),
    ensures
        ({
            let va = coordinate(a.velocity, k);
            let vb = coordinate(b.velocity, k);
            let wa = coordinate(resolved(a, b, c).0.velocity, k);
            let wb = coordinate(resolved(a, b, c).1.velocity, k);
            &&& wa == vb
            &&& wb == va
            &&& a.mass * wa + b.mass * wb == a.mass * va + b.mass * vb
            &&& a.mass * (wa * wa) + b.mass * (wb * wb) == a.mass * (va * va) + b.mass * (vb
                * vb)
            &&& vb == -va ==> wa == -va && wb == -vb
        }),
        forall|other: int|
            0 <= other <= 2 && other != k ==> coordinate(resolved(a, b, c).0.velocity, other)
                == coordinate(a.velocity, other) && coordinate(
                resolved(a, b, c).1.velocity,
                other,
            ) == coordinate(b.velocity, other),
{
    let ua = normal_speed(a.velocity, c.normal);
    let ub = normal_speed(b.velocity, c.normal);
    lemma_axis_normal(a.velocity, k, sign, 0);
    lemma_axis_normal(b.velocity, k, sign, 0);
    law_equal_masses_exchange_speeds(a.mass, ua, ub);
    lemma_axis_normal(a.velocity, k, sign, ub);
    lemma_axis_normal(b.velocity, k, sign, ua);
    let va = coordinate(a.velocity, k);
    let vb = coordinate(b.velocity, k);
    assert(sign * (sign * va) == va);
    assert(sign * (sign * vb) == vb);
}

/// Whether two bodies of equal mass can exchange their parts along `n`
/// without any coordinate being pinned to the range.
pub open spec fn exchange_fits(va: V3, vb: V3, n: V3) -> bool {
    let ua = normal_speed(va, n);
    let ub = normal_speed(vb, n);
    &&& representable(ub - ua)
    &&& representable(va.x - fx_mul(n.x, ua)) && representable(va.x - fx_mul(n.x, ua) + fx_mul(n.x, ub))
    &&& representable(va.y - fx_mul(n.y, ua)) && representable(va.y - fx_mul(n.y, ua) + fx_mul(n.y, ub))
    &&& representable(va.z - fx_mul(n.z, ua)) && representable(va.z - fx_mul(n.z, ua) + fx_mul(n.z, ub))
    &&& representable(vb.x - fx_mul(n.x, ub)) && representable(vb.x - fx_mul(n.x, ub) + fx_mul(n.x, ua))
    &&& representable(vb.y - fx_mul(n.y, ub)) && representable(vb.y - fx_mul(n.y, ub) + fx_mul(n.y, ua))
    &&& representable(vb.z - fx_mul(n.z, ub)) && representable(vb.z - fx_mul(n.z, ub) + fx_mul(n.z, ua))
}

/// Equal masses keep their momentum exactly, whatever the normal: what one
/// body gains in velocity the other loses, coordinate by coordinate.
pub proof fn law_equal_masses_keep_momentum(a: BodyModel, b: BodyModel, c: ContactModel)
    requires
        a.wf(),
        b.wf(),
        a.kind == BodyKind::Dynamic,
        b.kind == BodyKind::Dynamic,
        a.mass == b.mass,
        exchange_fits(a.velocity, b.velocity, c.normal),
    ensures
        resolved(a, b, c).0.velocity.x + resolved(a, b, c).1.velocity.x == a.velocity.x
            + b.velocity.x,
        resolved(a, b, c).0.velocity.y + resolved(a, b, c).1.velocity.y == a.velocity.y
            + b.velocity.y,
        resolved(a, b, c).0.velocity.z + resolved(a, b, c).1.velocity.z == a.velocity.z
            + b.velocity.z,
{
    let ua = normal_speed(a.velocity, c.normal);
    let ub = normal_speed(b.velocity, c.normal);
    law_equal_masses_exchange_speeds(a.mass, ua, ub);
}

/// Momentum along the normal: an elastic collision changes the total
/// momentum of two masses along the line of the collision by less than the
/// larger mass times one raw step of speed, the trace of rounding.
pub proof fn law_momentum_kept(m1: int, u1: int, m2: int, u2: int)
    requires
        m1 > 0,
        m2 > 0,
        representable(u1),
        representable(u2),
        representable(u2 - u1),
        representable(u1 + quot(2 * m2 * (u2 - u1), m1 + m2)),
        representable(u2 - quot(2 * m1 * (u2 - u1), m1 + m2)),
    ensures
        ({
            let after = elastic_speeds(m1, u1, m2, u2);
            let change = (m1 * after.0 + m2 * after.1) - (m1 * u1 + m2 * u2);
            -m1 < change < m1 || -m2 < change < m2
        }),
{
    let c = u2 - u1;
    let total = m1 + m2;
    let q1 = quot(2 * m2 * c, total);
    let q2 = quot(2 * m1 * c, total);
    let after = elastic_speeds(m1, u1, m2, u2);
    assert(after.0 == u1 + q1);
    assert(after.1 == u2 - q2);
    let change = (m1 * after.0 + m2 * after.1) - (m1 * u1 + m2 * u2);
    assert(change == m1 * q1 - m2 * q2) by (nonlinear_arith)
        requires
            change == (m1 * (u1 + q1) + m2 * (u2 - q2)) - (m1 * u1 + m2 * u2),
    ;
    if c >= 0 {
        lemma_shares_of_rounding(m1, m2, c);
    } else {
        lemma_quot_neg(2 * m2 * c, total);
        lemma_quot_neg(2 * m1 * c, total);
        assert(-(2 * m2 * c) == 2 * m2 * (-c)) by (nonlinear_arith);
        assert(-(2 * m1 * c) == 2 * m1 * (-c)) by (nonlinear_arith);
        lemma_shares_of_rounding(m1, m2, -c);
        let back1 = quot(2 * m2 * (-c), total);
        let back2 = quot(2 * m1 * (-c), total);
        assert(q1 == -back1);
        assert(q2 == -back2);
        assert(m1 * q1 - m2 * q2 == -(m1 * back1 - m2 * back2)) by (nonlinear_arith)
            requires
                q1 == -back1,
                q2 == -back2,
        ;
    }
}

/// For a non-negative closing speed, the momentum that one mass gains and
/// the momentum that the other loses differ by less than the larger mass.
proof fn lemma_shares_of_rounding(m1: int, m2: int, c: int)
    requires
        m1 > 0,
        m2 > 0,
        c >= 0,
    ensures
        ({
            let d = m1 * quot(2 * m2 * c, m1 + m2) - m2 * quot(2 * m1 * c, m1 + m2);
            -m1 < d < m2
        }),
{
    let total = m1 + m2;
    let a1 = 2 * m2 * c;
    let a2 = 2 * m1 * c;
    assert(a1 >= 0 && a2 >= 0) by (nonlinear_arith)
        requires
            a1 == 2 * m2 * c,
            a2 == 2 * m1 * c,
            m1 > 0,
            m2 > 0,
            c >= 0,
    ;
    let q1 = a1 / total;
    let q2 = a2 / total;
    let r1 = a1 % total;
    let r2 = a2 % total;
    assert(a1 == total * q1 + r1 && 0 <= r1 < total) by (nonlinear_arith)
        requires
            q1 == a1 / total,
            r1 == a1 % total,
            total > 0,
    ;
    assert(a2 == total * q2 + r2 && 0 <= r2 < total) by (nonlinear_arith)
        requires
            q2 == a2 / total,
            r2 == a2 % total,
            total > 0,
    ;
    assert(m1 * a1 == m2 * a2) by (nonlinear_arith)
        requires
            a1 == 2 * m2 * c,
            a2 == 2 * m1 * c,
    ;
    assert(m1 * a1 == total * (m1 * q1) + m1 * r1) by (nonlinear_arith)
        requires
            a1 == total * q1 + r1,
    ;
    assert(m2 * a2 == total * (m2 * q2) + m2 * r2) by (nonlinear_arith)
        requires
            a2 == total * q2 + r2,
    ;
    assert(total * (m1 * q1 - m2 * q2) == total * (m1 * q1) - total * (m2 * q2))
        by (nonlinear_arith);
    let d = m1 * q1 - m2 * q2;
    assert(-m1 < d < m2) by (nonlinear_arith)
        requires
            total * d == m2 * r2 - m1 * r1,
            0 <= r1 < total,
            0 <= r2 < total,
            m1 > 0,
            m2 > 0,
            total == m1 + m2,
    ;
}

} // verus!
