//! Three-dimensional vectors, orientations and rigid transforms over
//! fixed-point scalars.

use crate::scalar::{
    floor_sqrt, fx_add, fx_mul, fx_mul_div, fx_neg, fx_sub, isqrt, mul_div, quot, saturate,
    Scalar, SCALE,
};
use vstd::prelude::*;

verus! {

/// The largest squared raw length that is still measured finely.
pub const FINE_LIMIT: u128 = 100_000_000_000_000_000_000_000_000;

/// The mathematical content of a [`Vector3`]: three raw coordinates.
pub struct V3 {
    pub x: int,
    pub y: int,
    pub z: int,
}

impl V3 {
    /// The zero vector.
    pub open spec fn zero() -> V3 {
        V3 { x: 0, y: 0, z: 0 }
    }

    /// The unit vector along the vertical axis.
    pub open spec fn unit_y() -> V3 {
        V3 { x: 0, y: SCALE as int, z: 0 }
    }

    /// Componentwise sum.
    pub open spec fn plus(self, other: V3) -> V3 {
        V3 {
            x: fx_add(self.x, other.x),
            y: fx_add(self.y, other.y),
            z: fx_add(self.z, other.z),
        }
    }

    /// Componentwise difference.
    pub open spec fn minus(self, other: V3) -> V3 {
        V3 {
            x: fx_sub(self.x, other.x),
            y: fx_sub(self.y, other.y),
            z: fx_sub(self.z, other.z),
        }
    }

    /// Componentwise negation.
    pub open spec fn negated(self) -> V3 {
        V3 { x: fx_neg(self.x), y: fx_neg(self.y), z: fx_neg(self.z) }
    }

    /// Every component multiplied by the scalar `k`.
    pub open spec fn scaled(self, k: int) -> V3 {
        V3 { x: fx_mul(self.x, k), y: fx_mul(self.y, k), z: fx_mul(self.z, k) }
    }

    /// Dot product: each product is rounded toward zero, the sum is pinned
    /// to the representable range.
    pub open spec fn dot(self, other: V3) -> int {
        saturate(
            quot(self.x * other.x, SCALE as int) + quot(self.y * other.y, SCALE as int) + quot(
                self.z * other.z,
                SCALE as int,
            ),
        )
    }

    /// Squared length as a scalar.
    pub open spec fn len_sqr(self) -> int {
        self.dot(self)
    }

    /// Sum of the squared raw coordinates, with no rounding at all.
    pub open spec fn norm_sq(self) -> int {
        self.x * self.x + self.y * self.y + self.z * self.z
    }

    /// Length in raw steps, rounded down.
    pub open spec fn length(self) -> int {
        floor_sqrt(self.norm_sq())
    }

    /// The factor by which the vector is magnified before it is measured
    /// for normalizing: short vectors are measured a million times finer
    /// than a raw step, vectors too long for that at the raw step.
    pub open spec fn refinement(self) -> int {
        if self.norm_sq() <= FINE_LIMIT {
            SCALE as int
        } else {
            1
        }
    }

    /// Length of the magnified vector, rounded down.
    pub open spec fn fine_length(self) -> int {
        floor_sqrt(self.norm_sq() * (self.refinement() * self.refinement()))
    }

    /// The vector rescaled to unit length; the vertical unit vector when
    /// there is no direction to keep.
    pub open spec fn normalized(self) -> V3 {
        if self.norm_sq() == 0 {
            V3::unit_y()
        } else {
            V3 {
                x: fx_mul_div(self.x, SCALE * self.refinement(), self.fine_length()),
                y: fx_mul_div(self.y, SCALE * self.refinement(), self.fine_length()),
                z: fx_mul_div(self.z, SCALE * self.refinement(), self.fine_length()),
            }
        }
    }
}


/// A vector of three fixed-point coordinates.
#[derive(Clone, Copy, Debug, PartialEq, Eq, Structural)]
pub struct Vector3 {
    pub x: Scalar,
    pub y: Scalar,
    pub z: Scalar,
}

impl View for Vector3 {
    type V = V3;

    open spec fn view(&self) -> V3 {
        V3 { x: self.x@, y: self.y@, z: self.z@ }
    }
}

/// The square of a raw coordinate.
pub(crate) fn square(a: i64) -> (r: u128)
    ensures
        r == a * a,
        r <= 0x4000_0000_0000_0000_0000_0000_0000_0000,
{
    assert(0 <= a * a <= 0x4000_0000_0000_0000_0000_0000_0000_0000) by (nonlinear_arith)
        requires
            -0x8000_0000_0000_0000 <= a <= 0x7fff_ffff_ffff_ffff,
    ;
    let wide: i128 = a as i128;
    (wide * wide) as u128
}

/// The product of two raw values divided by the scale, not yet pinned.
fn scaled_product(a: i64, b: i64) -> (r: i128)
    ensures
        r == quot(a * b, SCALE as int),
        -0x1000_0000_0000_0000_0000_0000_0000_0000 <= r
            <= 0x1000_0000_0000_0000_0000_0000_0000_0000,
{
    assert(-0x4000_0000_0000_0000_0000_0000_0000_0000 <= a * b
        <= 0x4000_0000_0000_0000_0000_0000_0000_0000) by (nonlinear_arith)
        requires
            -0x8000_0000_0000_0000 <= a <= 0x7fff_ffff_ffff_ffff,
            -0x8000_0000_0000_0000 <= b <= 0x7fff_ffff_ffff_ffff,
    ;
    let p: i128 = (a as i128) * (b as i128);
    p / (SCALE as i128)
}

impl Vector3 {
    /// The vector with the given coordinates.
    pub fn new(x: Scalar, y: Scalar, z: Scalar) -> (r: Vector3)
        ensures
            r@ == (V3 { x: x@, y: y@, z: z@ }),
    {
        Vector3 { x, y, z }
    }

    /// The vector whose coordinates are the given numbers of millionths.
    pub fn from_micros(x: i64, y: i64, z: i64) -> (r: Vector3)
        ensures
            r@ == (V3 { x: x as int, y: y as int, z: z as int }),
    {
        Vector3 {
            x: Scalar::from_micros(x),
            y: Scalar::from_micros(y),
            z: Scalar::from_micros(z),
        }
    }

    /// The zero vector.
    pub fn zero() -> (r: Vector3)
        ensures
            r@ == V3::zero(),
    {
        Vector3 { x: Scalar::zero(), y: Scalar::zero(), z: Scalar::zero() }
    }

    /// The unit vector along the vertical axis.
    pub fn unit_y() -> (r: Vector3)
        ensures
            r@ == V3::unit_y(),
    {
        Vector3 { x: Scalar::zero(), y: Scalar::one(), z: Scalar::zero() }
    }

    /// Componentwise sum.
    pub fn add(&self, other: &Vector3) -> (r: Vector3)
        ensures
            r@ == self@.plus(other@),
    {
        Vector3 { x: self.x.add(&other.x), y: self.y.add(&other.y), z: self.z.add(&other.z) }
    }

    /// Componentwise difference.
    pub fn sub(&self, other: &Vector3) -> (r: Vector3)
        ensures
            r@ == self@.minus(other@),
    {
        Vector3 { x: self.x.sub(&other.x), y: self.y.sub(&other.y), z: self.z.sub(&other.z) }
    }

    /// Componentwise negation.
    pub fn neg(&self) -> (r: Vector3)
        ensures
            r@ == self@.negated(),
    {
        Vector3 { x: self.x.neg(), y: self.y.neg(), z: self.z.neg() }
    }

    /// Every component multiplied by `k`.
    pub fn scale(&self, k: &Scalar) -> (r: Vector3)
        ensures
            r@ == self@.scaled(k@),
    {
        Vector3 { x: self.x.mul(k), y: self.y.mul(k), z: self.z.mul(k) }
    }

    /// Dot product.
    pub fn dot(&self, other: &Vector3) -> (r: Scalar)
        ensures
            r@ == self@.dot(other@),
    {
        let px: i128 = scaled_product(self.x.raw, other.x.raw);
        let py: i128 = scaled_product(self.y.raw, other.y.raw);
        let pz: i128 = scaled_product(self.z.raw, other.z.raw);
        let sum: i128 = px + py + pz;
        Scalar::from_micros(
            if sum < i64::MIN as i128 {
                i64::MIN
            } else if sum > i64::MAX as i128 {
                i64::MAX
            } else {
                sum as i64
            },
        )
    }

    /// Squared length.
    pub fn len_sqr(&self) -> (r: Scalar)
        ensures
            r@ == self@.len_sqr(),
    {
        self.dot(self)
    }

    /// Sum of the squared raw coordinates, exactly.
    pub fn norm_sq(&self) -> (r: u128)
        ensures
            r == self@.norm_sq(),
    {
        square(self.x.raw) + square(self.y.raw) + square(self.z.raw)
    }

    /// Length, rounded down to a whole raw step.
    pub fn length(&self) -> (r: u128)
        ensures
            r == self@.length(),
            r < 0x1_0000_0000_0000_0000,
    {
        isqrt(self.norm_sq())
    }

    /// The unit vector in the direction of `self`, or the vertical unit
    /// vector when `self` is the zero vector.
    pub fn normalize(&self) -> (r: Vector3)
        ensures
            r@ == self@.normalized(),
    {
        let n2: u128 = self.norm_sq();
        if n2 == 0 {
            Vector3::unit_y()
        } else {
            let fine: bool = n2 <= FINE_LIMIT;
            let factor: i64 = if fine { SCALE } else { 1 };
            let magnified: u128 = if fine { n2 * 1_000_000_000_000 } else { n2 };
            assert(magnified == n2 * (factor * factor)) by (nonlinear_arith)
                requires
                    fine ==> factor == 1_000_000 && magnified == n2 * 1_000_000_000_000,
                    !fine ==> factor == 1 && magnified == n2,
            ;
            let len: u128 = isqrt(magnified);
            assert(len > 0) by (nonlinear_arith)
                requires
                    magnified > 0,
                    magnified < (len + 1) * (len + 1),
                    len >= 0,
            ;
            let d: i128 = len as i128;
            let unit: i64 = SCALE * factor;
            Vector3 {
                x: Scalar::from_micros(mul_div(self.x.raw, unit, d)),
                y: Scalar::from_micros(mul_div(self.y.raw, unit, d)),
                z: Scalar::from_micros(mul_div(self.z.raw, unit, d)),
            }
        }
    }
}

/// The mathematical content of a [`Quaternion`].
pub struct Q4 {
    pub w: int,
    pub x: int,
    pub y: int,
    pub z: int,
}

/// An orientation, as the four coefficients of a quaternion.
#[derive(Clone, Copy, Debug, PartialEq, Eq, Structural)]
pub struct Quaternion {
    pub w: Scalar,
    pub x: Scalar,
    pub y: Scalar,
    pub z: Scalar,
}

impl View for Quaternion {
    type V = Q4;

    open spec fn view(&self) -> Q4 {
        Q4 { w: self.w@, x: self.x@, y: self.y@, z: self.z@ }
    }
}

impl Quaternion {
    /// The orientation that turns nothing.
    pub fn identity() -> (r: Quaternion)
        ensures
            r@ == (Q4 { w: SCALE as int, x: 0, y: 0, z: 0 }),
    {
        Quaternion { w: Scalar::one(), x: Scalar::zero(), y: Scalar::zero(), z: Scalar::zero() }
    }
}

/// The mathematical content of a [`Transform`].
pub struct TransformModel {
    pub position: V3,
    pub orientation: Q4,
    pub scale: int,
}

/// Where a body is and how it is turned. The uniform scale is carried along
/// and plays no part in the motion of spheres.
#[derive(Clone, Copy, Debug, PartialEq, Eq, Structural)]
pub struct Transform {
    pub position: Vector3,
    pub orientation: Quaternion,
    pub scale: Scalar,
}

impl View for Transform {
    type V = TransformModel;

    open spec fn view(&self) -> TransformModel {
        TransformModel {
            position: self.position@,
            orientation: self.orientation@,
            scale: self.scale@,
        }
    }
}

impl Transform {
    /// The transform that places a body at `position`, unturned and at
    /// unit scale.
    pub fn at(position: Vector3) -> (r: Transform)
        ensures
            r@ == (TransformModel {
                position: position@,
                orientation: Q4 { w: SCALE as int, x: 0, y: 0, z: 0 },
                scale: SCALE as int,
            }),
    {
        Transform { position, orientation: Quaternion::identity(), scale: Scalar::one() }
    }
}

} // verus!
