//! Vectors, matrices and quaternions over fixed-point scalars.  Every
//! operation states its result exactly, as the floor-rounded fixed-point
//! arithmetic of `crate::fx`.

use vstd::prelude::*;
use crate::fx::{
    fxm, fxd, fits_factor, fits_coord, fits_point, sqrt_floor, fx_abs,
    fx_mul, fx_div, isqrt, sq_i128, fx_sin, fx_cos, sin_fx, cos_fx, reduce_angle, reduce_spec,
    lemma_sqrt_floor_bounds, lemma_fxd_unit, lemma_fxm_bound, lemma_fxm_one,
};
use vstd::arithmetic::div_mod::lemma_div_multiples_vanish;

verus! {

/// A point or direction in space: three fixed-point components.
#[derive(Debug, Clone, Copy, PartialEq, Eq, Structural)]
pub struct Vec3 {
    pub x: i64,
    pub y: i64,
    pub z: i64,
}

/// A screen-space position: two fixed-point components.
#[derive(Debug, Clone, Copy, PartialEq, Eq, Structural)]
pub struct Vec2 {
    pub x: i64,
    pub y: i64,
}

/// All three components within the coordinate range.
pub open spec fn bounded3(v: Vec3) -> bool {
    fits_coord(v.x as int) && fits_coord(v.y as int) && fits_coord(v.z as int)
}

/// Both components within the coordinate range.
pub open spec fn bounded2(v: Vec2) -> bool {
    fits_coord(v.x as int) && fits_coord(v.y as int)
}

/// The fixed-point magnitude of a vector: the floor square root of the
/// sum of squared raw components (the scale factors cancel).
pub open spec fn mag3_spec(v: Vec3) -> int {
    sqrt_floor(v.x * v.x + v.y * v.y + v.z * v.z)
}

pub open spec fn mag2_spec(v: Vec2) -> int {
    sqrt_floor(v.x * v.x + v.y * v.y)
}

pub open spec fn cross_x(a: Vec3, b: Vec3) -> int {
    fxm(a.y as int, b.z as int) - fxm(a.z as int, b.y as int)
}

pub open spec fn cross_y(a: Vec3, b: Vec3) -> int {
    fxm(a.z as int, b.x as int) - fxm(a.x as int, b.z as int)
}

pub open spec fn cross_z(a: Vec3, b: Vec3) -> int {
    fxm(a.x as int, b.y as int) - fxm(a.y as int, b.x as int)
}

pub open spec fn dot3_spec(a: Vec3, b: Vec3) -> int {
    fxm(a.x as int, b.x as int) + fxm(a.y as int, b.y as int) + fxm(a.z as int, b.z as int)
}

/// The value `normalize` returns: each component scaled by the inverse
/// magnitude, or the zero vector for a zero input.
pub open spec fn spec_normalize3(v: Vec3) -> Vec3 {
    if mag3_spec(v) == 0 {
        Vec3 { x: 0i64, y: 0i64, z: 0i64 }
    } else {
        Vec3 {
            x: fxd(v.x as int, mag3_spec(v)) as i64,
            y: fxd(v.y as int, mag3_spec(v)) as i64,
            z: fxd(v.z as int, mag3_spec(v)) as i64,
        }
    }
}

/// The value `cross` returns, as a vector.
pub open spec fn spec_cross(a: Vec3, b: Vec3) -> Vec3 {
    Vec3 { x: cross_x(a, b) as i64, y: cross_y(a, b) as i64, z: cross_z(a, b) as i64 }
}

/// A component squared never exceeds the squared-sum, so it is bounded
/// by the magnitude.
pub proof fn lemma_comp_le_mag(x: int, s: int)
    requires
        x * x <= s,
        0 <= s,
    ensures
        fx_abs(x) <= sqrt_floor(s),
{
    lemma_sqrt_floor_bounds(s);
    let m = sqrt_floor(s);
    let h = fx_abs(x);
    if h > m {
        assert((m + 1) * (m + 1) <= x * x) by (nonlinear_arith)
            requires
                m + 1 <= h,
                0 <= m,
                h == x || h == -x,
        ;
    }
}

/// The magnitude of a coordinate-range vector stays within `fx_mul`
/// factor range.
proof fn lemma_mag3_bound(v: Vec3)
    requires
        bounded3(v),
    ensures
        0 <= mag3_spec(v) <= 0x80_0000_0000,
{
    let s = v.x * v.x + v.y * v.y + v.z * v.z;
    assert(0 <= s <= 0x3000_0000_0000_0000_0000) by (nonlinear_arith)
        requires
            fits_coord(v.x as int),
            fits_coord(v.y as int),
            fits_coord(v.z as int),
            s == v.x * v.x + v.y * v.y + v.z * v.z,
    ;
    lemma_sqrt_floor_bounds(s);
    let m = sqrt_floor(s);
    if m > 0x80_0000_0000 {
        assert(m * m > 0x3000_0000_0000_0000_0000) by (nonlinear_arith)
            requires
                m > 0x80_0000_0000,
        ;
    }
}

impl Vec3 {
    pub fn new(x: i64, y: i64, z: i64) -> (r: Vec3)
        ensures
            r == (Vec3 { x, y, z }),
    {
        Vec3 { x, y, z }
    }

    pub fn zero() -> (r: Vec3)
        ensures
            r == (Vec3 { x: 0i64, y: 0i64, z: 0i64 }),
    {
        Vec3 { x: 0, y: 0, z: 0 }
    }

    /// Componentwise sum.
    pub fn add(&self, other: &Vec3) -> (r: Vec3)
        requires
            bounded3(*self),
            bounded3(*other),
        ensures
            r.x == self.x + other.x,
            r.y == self.y + other.y,
            r.z == self.z + other.z,
    {
        Vec3 { x: self.x + other.x, y: self.y + other.y, z: self.z + other.z }
    }

    /// Componentwise difference.
    pub fn sub(&self, other: &Vec3) -> (r: Vec3)
        requires
            bounded3(*self),
            bounded3(*other),
        ensures
            r.x == self.x - other.x,
            r.y == self.y - other.y,
            r.z == self.z - other.z,
    {
        Vec3 { x: self.x - other.x, y: self.y - other.y, z: self.z - other.z }
    }

    /// Scaling by a fixed-point factor.
    pub fn mul_scalar(&self, scalar: i64) -> (r: Vec3)
        requires
            bounded3(*self),
            fits_factor(scalar as int),
        ensures
            r.x == fxm(self.x as int, scalar as int),
            r.y == fxm(self.y as int, scalar as int),
            r.z == fxm(self.z as int, scalar as int),
    {
        Vec3 {
            x: fx_mul(self.x, scalar),
            y: fx_mul(self.y, scalar),
            z: fx_mul(self.z, scalar),
        }
    }

    /// Division by a fixed-point scalar.  Dividing by zero is a fatal
    /// misuse, so the contract excludes it; callers guard.
    pub fn div_scalar(&self, scalar: i64) -> (r: Vec3)
        requires
            bounded3(*self),
            scalar != 0,
        ensures
            r.x == fxd(self.x as int, scalar as int),
            r.y == fxd(self.y as int, scalar as int),
            r.z == fxd(self.z as int, scalar as int),
    {
        Vec3 {
            x: fx_div(self.x, scalar),
            y: fx_div(self.y, scalar),
            z: fx_div(self.z, scalar),
        }
    }

    /// The Euclidean length, as the floor square root of the raw
    /// squared-component sum.
    pub fn magnitude(&self) -> (r: i64)
        requires
            bounded3(*self),
        ensures
            r == mag3_spec(*self),
            0 <= r <= 0x80_0000_0000,
    {
        proof {
            lemma_mag3_bound(*self);
        }
        let sx: i128 = sq_i128(self.x);
        let sy: i128 = sq_i128(self.y);
        let sz: i128 = sq_i128(self.z);
        let s: u128 = (sx + sy + sz) as u128;
        isqrt(s) as i64
    }

    /// The unit vector in the same direction; the zero vector stays the
    /// zero vector rather than failing.
    pub fn normalize(&self) -> (r: Vec3)
        requires
            bounded3(*self),
        ensures
            r == spec_normalize3(*self),
            mag3_spec(*self) == 0 ==> r == (Vec3 { x: 0i64, y: 0i64, z: 0i64 }),
            mag3_spec(*self) != 0 ==> r.x == fxd(self.x as int, mag3_spec(*self))
                && r.y == fxd(self.y as int, mag3_spec(*self))
                && r.z == fxd(self.z as int, mag3_spec(*self)),
            -65536 <= r.x <= 65536,
            -65536 <= r.y <= 65536,
            -65536 <= r.z <= 65536,
            bounded3(r),
    {
        let mag = self.magnitude();
        if mag == 0 {
            Vec3::zero()
        } else {
            proof {
                let s = self.x * self.x + self.y * self.y + self.z * self.z;
                assert(self.x * self.x <= s && self.y * self.y <= s && self.z * self.z <= s)
                    by (nonlinear_arith)
                    requires
                        s == self.x * self.x + self.y * self.y + self.z * self.z,
                ;
                lemma_comp_le_mag(self.x as int, s);
                lemma_comp_le_mag(self.y as int, s);
                lemma_comp_le_mag(self.z as int, s);
                lemma_fxd_unit(self.x as int, mag as int);
                lemma_fxd_unit(self.y as int, mag as int);
                lemma_fxd_unit(self.z as int, mag as int);
            }
            Vec3 {
                x: fx_div(self.x, mag),
                y: fx_div(self.y, mag),
                z: fx_div(self.z, mag),
            }
        }
    }

    /// Fixed-point dot product.
    pub fn dot(&self, other: &Vec3) -> (r: i64)
        requires
            bounded3(*self),
            bounded3(*other),
        ensures
            r == dot3_spec(*self, *other),
            -0x3000_0000_0000_0000 - 3 <= r <= 0x3000_0000_0000_0000 + 3,
    {
        proof {
            lemma_fxm_bound(self.x as int, other.x as int, 0x40_0000_0000, 0x40_0000_0000);
            lemma_fxm_bound(self.y as int, other.y as int, 0x40_0000_0000, 0x40_0000_0000);
            lemma_fxm_bound(self.z as int, other.z as int, 0x40_0000_0000, 0x40_0000_0000);
        }
        fx_mul(self.x, other.x) + fx_mul(self.y, other.y) + fx_mul(self.z, other.z)
    }

    /// Fixed-point cross product.
    pub fn cross(&self, other: &Vec3) -> (r: Vec3)
        requires
            bounded3(*self),
            bounded3(*other),
        ensures
            r == spec_cross(*self, *other),
            r.x == cross_x(*self, *other),
            r.y == cross_y(*self, *other),
            r.z == cross_z(*self, *other),
    {
        proof {
            lemma_fxm_bound(self.x as int, other.x as int, 0x40_0000_0000, 0x40_0000_0000);
            lemma_fxm_bound(self.y as int, other.y as int, 0x40_0000_0000, 0x40_0000_0000);
            lemma_fxm_bound(self.z as int, other.z as int, 0x40_0000_0000, 0x40_0000_0000);
            lemma_fxm_bound(self.x as int, other.y as int, 0x40_0000_0000, 0x40_0000_0000);
            lemma_fxm_bound(self.y as int, other.z as int, 0x40_0000_0000, 0x40_0000_0000);
            lemma_fxm_bound(self.z as int, other.x as int, 0x40_0000_0000, 0x40_0000_0000);
            lemma_fxm_bound(self.y as int, other.x as int, 0x40_0000_0000, 0x40_0000_0000);
            lemma_fxm_bound(self.z as int, other.y as int, 0x40_0000_0000, 0x40_0000_0000);
            lemma_fxm_bound(self.x as int, other.z as int, 0x40_0000_0000, 0x40_0000_0000);
        }
        Vec3 {
            x: fx_mul(self.y, other.z) - fx_mul(self.z, other.y),
            y: fx_mul(self.z, other.x) - fx_mul(self.x, other.z),
            z: fx_mul(self.x, other.y) - fx_mul(self.y, other.x),
        }
    }

    /// Euclidean distance to another point.
    pub fn distance_to(&self, other: &Vec3) -> (r: i64)
        requires
            bounded3(*self),
            bounded3(*other),
        ensures
            r == mag3_spec(
                Vec3 {
                    x: (self.x - other.x) as i64,
                    y: (self.y - other.y) as i64,
                    z: (self.z - other.z) as i64,
                },
            ),
            0 <= r,
    {
        let d = self.sub(other);
        d.magnitude_wide()
    }

    /// Magnitude for difference vectors, whose components may reach one
    /// step beyond the coordinate range.
    fn magnitude_wide(&self) -> (r: i64)
        requires
            -0x80_0000_0000 <= self.x <= 0x80_0000_0000,
            -0x80_0000_0000 <= self.y <= 0x80_0000_0000,
            -0x80_0000_0000 <= self.z <= 0x80_0000_0000,
        ensures
            r == mag3_spec(*self),
            0 <= r,
    {
        let sx: i128 = sq_i128(self.x);
        let sy: i128 = sq_i128(self.y);
        let sz: i128 = sq_i128(self.z);
        proof {
            let m = sqrt_floor(sx + sy + sz);
            lemma_sqrt_floor_bounds(sx + sy + sz);
            if m > 0x1_0000_0000_0000 {
                assert(m * m > 0xC000_0000_0000_0000_0000) by (nonlinear_arith)
                    requires
                        m > 0x1_0000_0000_0000,
                ;
            }
        }
        let s: u128 = (sx + sy + sz) as u128;
        isqrt(s) as i64
    }
}

impl Vec2 {
    pub fn new(x: i64, y: i64) -> (r: Vec2)
        ensures
            r == (Vec2 { x, y }),
    {
        Vec2 { x, y }
    }

    pub fn zero() -> (r: Vec2)
        ensures
            r == (Vec2 { x: 0i64, y: 0i64 }),
    {
        Vec2 { x: 0, y: 0 }
    }

    /// Componentwise sum.
    pub fn add(&self, other: &Vec2) -> (r: Vec2)
        requires
            bounded2(*self),
            bounded2(*other),
        ensures
            r.x == self.x + other.x,
            r.y == self.y + other.y,
    {
        Vec2 { x: self.x + other.x, y: self.y + other.y }
    }

    /// Componentwise difference.
    pub fn sub(&self, other: &Vec2) -> (r: Vec2)
        requires
            bounded2(*self),
            bounded2(*other),
        ensures
            r.x == self.x - other.x,
            r.y == self.y - other.y,
    {
        Vec2 { x: self.x - other.x, y: self.y - other.y }
    }

    /// Scaling by a fixed-point factor.
    pub fn mul_scalar(&self, scalar: i64) -> (r: Vec2)
        requires
            bounded2(*self),
            fits_factor(scalar as int),
        ensures
            r.x == fxm(self.x as int, scalar as int),
            r.y == fxm(self.y as int, scalar as int),
    {
        Vec2 { x: fx_mul(self.x, scalar), y: fx_mul(self.y, scalar) }
    }

    /// The Euclidean length of a screen vector.
    pub fn magnitude(&self) -> (r: i64)
        requires
            bounded2(*self),
        ensures
            r == mag2_spec(*self),
            0 <= r <= 0x80_0000_0000,
    {
        let sx: i128 = sq_i128(self.x);
        let sy: i128 = sq_i128(self.y);
        proof {
            assert(sx <= 0x1000_0000_0000_0000_0000 && sy <= 0x1000_0000_0000_0000_0000)
                by (nonlinear_arith)
                requires
                    fits_coord(self.x as int),
                    fits_coord(self.y as int),
                    sx == (self.x as int) * (self.x as int),
                    sy == (self.y as int) * (self.y as int),
            ;
            let m = sqrt_floor(sx + sy);
            lemma_sqrt_floor_bounds(sx + sy);
            if m > 0x80_0000_0000 {
                assert(m * m > 0x2000_0000_0000_0000_0000) by (nonlinear_arith)
                    requires
                        m > 0x80_0000_0000,
                ;
            }
        }
        let s: u128 = (sx + sy) as u128;
        isqrt(s) as i64
    }

    /// The unit vector in the same direction; the zero vector stays the
    /// zero vector rather than failing.
    pub fn normalize(&self) -> (r: Vec2)
        requires
            bounded2(*self),
        ensures
            mag2_spec(*self) == 0 ==> r == (Vec2 { x: 0i64, y: 0i64 }),
            mag2_spec(*self) != 0 ==> r.x == fxd(self.x as int, mag2_spec(*self))
                && r.y == fxd(self.y as int, mag2_spec(*self)),
            -65536 <= r.x <= 65536,
            -65536 <= r.y <= 65536,
    {
        let mag = self.magnitude();
        if mag == 0 {
            Vec2::zero()
        } else {
            proof {
                let s = self.x * self.x + self.y * self.y;
                assert(self.x * self.x <= s && self.y * self.y <= s) by (nonlinear_arith)
                    requires
                        s == self.x * self.x + self.y * self.y,
                ;
                lemma_comp_le_mag(self.x as int, s);
                lemma_comp_le_mag(self.y as int, s);
                lemma_fxd_unit(self.x as int, mag as int);
                lemma_fxd_unit(self.y as int, mag as int);
            }
            Vec2 { x: fx_div(self.x, mag), y: fx_div(self.y, mag) }
        }
    }
}

/// A vector crossed with itself vanishes, component by component: the
/// parallel case of the cross product.
pub proof fn lemma_cross_self(v: Vec3)
    ensures
        cross_x(v, v) == 0,
        cross_y(v, v) == 0,
        cross_z(v, v) == 0,
{
    assert(v.y * v.z == v.z * v.y) by (nonlinear_arith);
    assert(v.z * v.x == v.x * v.z) by (nonlinear_arith);
    assert(v.x * v.y == v.y * v.x) by (nonlinear_arith);
}

} // verus!

verus! {

/// A row-major homogeneous transform of fixed-point entries.
#[derive(Debug, Clone, Copy, PartialEq)]
pub struct Mat4 {
    pub data: [[i64; 4]; 4],
}

/// The entry of a matrix at row `i`, column `j`, as a mathematical
/// integer.
pub open spec fn ent(m: Mat4, i: int, j: int) -> int {
    m.data[i][j] as int
}

/// All entries within the coordinate range.
pub open spec fn m4_bounded(m: Mat4) -> bool {
    forall|i: int, j: int| 0 <= i < 4 && 0 <= j < 4 ==> fits_coord(#[trigger] ent(m, i, j))
}

/// All entries within the point-transform range.
pub open spec fn m4_point_bounded(m: Mat4) -> bool {
    forall|i: int, j: int| 0 <= i < 4 && 0 <= j < 4 ==> fits_point(#[trigger] ent(m, i, j))
}

/// All components of a point within the point-transform range.
pub open spec fn point_bounded3(p: Vec3) -> bool {
    fits_point(p.x as int) && fits_point(p.y as int) && fits_point(p.z as int)
}

/// All entries within twice fixed-point one: rotation-like matrices.
pub open spec fn m4_trig_bounded(m: Mat4) -> bool {
    forall|i: int, j: int|
        0 <= i < 4 && 0 <= j < 4 ==> -131072 <= #[trigger] ent(m, i, j) <= 131072
}

/// One on the diagonal, zero elsewhere.
pub open spec fn is_identity(m: Mat4) -> bool {
    forall|i: int, j: int|
        0 <= i < 4 && 0 <= j < 4 ==> #[trigger] ent(m, i, j) == if i == j {
            65536int
        } else {
            0int
        }
}

/// The row-by-column fixed-point product entry.
pub open spec fn mul_entry(a: Mat4, b: Mat4, i: int, j: int) -> int {
    fxm(ent(a, i, 0), ent(b, 0, j)) + fxm(ent(a, i, 1), ent(b, 1, j))
        + fxm(ent(a, i, 2), ent(b, 2, j)) + fxm(ent(a, i, 3), ent(b, 3, j))
}

/// The homogeneous row value of a transformed point: three scaled
/// products plus the translation column.
pub open spec fn tp_row(m: Mat4, p: Vec3, i: int) -> int {
    fxm(ent(m, i, 0), p.x as int) + fxm(ent(m, i, 1), p.y as int)
        + fxm(ent(m, i, 2), p.z as int) + ent(m, i, 3)
}

/// The expected entry of a pure translation.
pub open spec fn translation_ent(x: int, y: int, z: int, i: int, j: int) -> int {
    if i == 0 && j == 3 {
        x
    } else if i == 1 && j == 3 {
        y
    } else if i == 2 && j == 3 {
        z
    } else if i == j {
        65536int
    } else {
        0int
    }
}

/// The expected entry of a non-uniform scale.
pub open spec fn scale_ent(sx: int, sy: int, sz: int, i: int, j: int) -> int {
    if i == 0 && j == 0 {
        sx
    } else if i == 1 && j == 1 {
        sy
    } else if i == 2 && j == 2 {
        sz
    } else if i == j {
        65536int
    } else {
        0int
    }
}

/// The expected entry of a rotation about the x axis with the given
/// cosine and sine.
pub open spec fn rot_x_ent(c: int, s: int, i: int, j: int) -> int {
    if i == 1 && j == 1 {
        c
    } else if i == 1 && j == 2 {
        -s
    } else if i == 2 && j == 1 {
        s
    } else if i == 2 && j == 2 {
        c
    } else if i == j {
        65536int
    } else {
        0int
    }
}

/// The expected entry of a rotation about the y axis.
pub open spec fn rot_y_ent(c: int, s: int, i: int, j: int) -> int {
    if i == 0 && j == 0 {
        c
    } else if i == 0 && j == 2 {
        s
    } else if i == 2 && j == 0 {
        -s
    } else if i == 2 && j == 2 {
        c
    } else if i == j {
        65536int
    } else {
        0int
    }
}

/// The expected entry of a rotation about the z axis.
pub open spec fn rot_z_ent(c: int, s: int, i: int, j: int) -> int {
    if i == 0 && j == 0 {
        c
    } else if i == 0 && j == 1 {
        -s
    } else if i == 1 && j == 0 {
        s
    } else if i == 1 && j == 1 {
        c
    } else if i == j {
        65536int
    } else {
        0int
    }
}

impl Mat4 {
    pub fn identity() -> (r: Mat4)
        ensures
            is_identity(r),
    {
        Mat4 {
            data: [
                [65536, 0, 0, 0],
                [0, 65536, 0, 0],
                [0, 0, 65536, 0],
                [0, 0, 0, 65536],
            ],
        }
    }

    /// A pure translation by the given fixed-point offsets.
    pub fn translation(x: i64, y: i64, z: i64) -> (r: Mat4)
        ensures
            forall|i: int, j: int|
                0 <= i < 4 && 0 <= j < 4 ==> #[trigger] ent(r, i, j) == translation_ent(
                    x as int,
                    y as int,
                    z as int,
                    i,
                    j,
                ),
            fits_coord(x as int) && fits_coord(y as int) && fits_coord(z as int) ==> m4_bounded(r),
    {
        Mat4 {
            data: [
                [65536, 0, 0, x],
                [0, 65536, 0, y],
                [0, 0, 65536, z],
                [0, 0, 0, 65536],
            ],
        }
    }

    /// A pure non-uniform scale.
    pub fn scale(sx: i64, sy: i64, sz: i64) -> (r: Mat4)
        ensures
            forall|i: int, j: int|
                0 <= i < 4 && 0 <= j < 4 ==> #[trigger] ent(r, i, j) == scale_ent(
                    sx as int,
                    sy as int,
                    sz as int,
                    i,
                    j,
                ),
            fits_coord(sx as int) && fits_coord(sy as int) && fits_coord(sz as int) ==> m4_bounded(
                r,
            ),
    {
        Mat4 {
            data: [
                [sx, 0, 0, 0],
                [0, sy, 0, 0],
                [0, 0, sz, 0],
                [0, 0, 0, 65536],
            ],
        }
    }

    /// A right-handed rotation about the x axis by a fixed-point angle
    /// in radians, reduced into one turn before the trigonometry.
    pub fn rotation_x(angle: i64) -> (r: Mat4)
        requires
            -0x4000_0000_0000_0000 <= angle <= 0x4000_0000_0000_0000,
        ensures
            forall|i: int, j: int|
                0 <= i < 4 && 0 <= j < 4 ==> #[trigger] ent(r, i, j) == rot_x_ent(
                    cos_fx(reduce_spec(angle as int)),
                    sin_fx(reduce_spec(angle as int)),
                    i,
                    j,
                ),
            m4_trig_bounded(r),
            m4_bounded(r),
    {
        let a = reduce_angle(angle);
        let c = fx_cos(a);
        let s = fx_sin(a);
        Mat4 {
            data: [
                [65536, 0, 0, 0],
                [0, c, -s, 0],
                [0, s, c, 0],
                [0, 0, 0, 65536],
            ],
        }
    }

    /// A right-handed rotation about the y axis.
    pub fn rotation_y(angle: i64) -> (r: Mat4)
        requires
            -0x4000_0000_0000_0000 <= angle <= 0x4000_0000_0000_0000,
        ensures
            forall|i: int, j: int|
                0 <= i < 4 && 0 <= j < 4 ==> #[trigger] ent(r, i, j) == rot_y_ent(
                    cos_fx(reduce_spec(angle as int)),
                    sin_fx(reduce_spec(angle as int)),
                    i,
                    j,
                ),
            m4_trig_bounded(r),
            m4_bounded(r),
    {
        let a = reduce_angle(angle);
        let c = fx_cos(a);
        let s = fx_sin(a);
        Mat4 {
            data: [
                [c, 0, s, 0],
                [0, 65536, 0, 0],
                [-s, 0, c, 0],
                [0, 0, 0, 65536],
            ],
        }
    }

    /// A right-handed rotation about the z axis.
    pub fn rotation_z(angle: i64) -> (r: Mat4)
        requires
            -0x4000_0000_0000_0000 <= angle <= 0x4000_0000_0000_0000,
        ensures
            forall|i: int, j: int|
                0 <= i < 4 && 0 <= j < 4 ==> #[trigger] ent(r, i, j) == rot_z_ent(
                    cos_fx(reduce_spec(angle as int)),
                    sin_fx(reduce_spec(angle as int)),
                    i,
                    j,
                ),
            m4_trig_bounded(r),
            m4_bounded(r),
    {
        let a = reduce_angle(angle);
        let c = fx_cos(a);
        let s = fx_sin(a);
        Mat4 {
            data: [
                [c, -s, 0, 0],
                [s, c, 0, 0],
                [0, 0, 65536, 0],
                [0, 0, 0, 65536],
            ],
        }
    }

    /// One entry of the row-by-column product.
    fn rc(a: &Mat4, b: &Mat4, i: usize, j: usize) -> (r: i64)
        requires
            i < 4,
            j < 4,
            m4_bounded(*a),
            m4_bounded(*b),
        ensures
            r == mul_entry(*a, *b, i as int, j as int),
    {
        proof {
            lemma_fxm_bound(ent(*a, i as int, 0), ent(*b, 0, j as int), 0x40_0000_0000, 0x40_0000_0000);
            lemma_fxm_bound(ent(*a, i as int, 1), ent(*b, 1, j as int), 0x40_0000_0000, 0x40_0000_0000);
            lemma_fxm_bound(ent(*a, i as int, 2), ent(*b, 2, j as int), 0x40_0000_0000, 0x40_0000_0000);
            lemma_fxm_bound(ent(*a, i as int, 3), ent(*b, 3, j as int), 0x40_0000_0000, 0x40_0000_0000);
        }
        fx_mul(a.data[i][0], b.data[0][j]) + fx_mul(a.data[i][1], b.data[1][j])
            + fx_mul(a.data[i][2], b.data[2][j]) + fx_mul(a.data[i][3], b.data[3][j])
    }

    /// Row-by-column composition; order matters.
    pub fn multiply(&self, other: &Mat4) -> (r: Mat4)
        requires
            m4_bounded(*self),
            m4_bounded(*other),
        ensures
            forall|i: int, j: int|
                0 <= i < 4 && 0 <= j < 4 ==> #[trigger] ent(r, i, j) == mul_entry(
                    *self,
                    *other,
                    i,
                    j,
                ),
    {
        Mat4 {
            data: [
                [
                    Mat4::rc(self, other, 0, 0),
                    Mat4::rc(self, other, 0, 1),
                    Mat4::rc(self, other, 0, 2),
                    Mat4::rc(self, other, 0, 3),
                ],
                [
                    Mat4::rc(self, other, 1, 0),
                    Mat4::rc(self, other, 1, 1),
                    Mat4::rc(self, other, 1, 2),
                    Mat4::rc(self, other, 1, 3),
                ],
                [
                    Mat4::rc(self, other, 2, 0),
                    Mat4::rc(self, other, 2, 1),
                    Mat4::rc(self, other, 2, 2),
                    Mat4::rc(self, other, 2, 3),
                ],
                [
                    Mat4::rc(self, other, 3, 0),
                    Mat4::rc(self, other, 3, 1),
                    Mat4::rc(self, other, 3, 2),
                    Mat4::rc(self, other, 3, 3),
                ],
            ],
        }
    }

    /// One homogeneous row of a transformed point.
    fn row_val(&self, point: &Vec3, i: usize) -> (r: i64)
        requires
            i < 4,
            m4_point_bounded(*self),
            point_bounded3(*point),
        ensures
            r == tp_row(*self, *point, i as int),
            -0x4000_0000_0000 <= r <= 0x4000_0000_0000,
    {
        proof {
            lemma_fxm_bound(ent(*self, i as int, 0), point.x as int, 0x4000_0000, 0x4000_0000);
            lemma_fxm_bound(ent(*self, i as int, 1), point.y as int, 0x4000_0000, 0x4000_0000);
            lemma_fxm_bound(ent(*self, i as int, 2), point.z as int, 0x4000_0000, 0x4000_0000);
            assert(fits_point(ent(*self, i as int, 3)));
        }
        fx_mul(self.data[i][0], point.x) + fx_mul(self.data[i][1], point.y)
            + fx_mul(self.data[i][2], point.z) + self.data[i][3]
    }

    /// Homogeneous point transformation with perspective division by the
    /// resulting `w`; a zero `w` skips the division as a deliberate
    /// degenerate-input fallback.
    pub fn transform_point(&self, point: &Vec3) -> (r: Vec3)
        requires
            m4_point_bounded(*self),
            point_bounded3(*point),
        ensures
            tp_row(*self, *point, 3) != 0 ==> r.x == fxd(
                tp_row(*self, *point, 0),
                tp_row(*self, *point, 3),
            ) && r.y == fxd(tp_row(*self, *point, 1), tp_row(*self, *point, 3)) && r.z == fxd(
                tp_row(*self, *point, 2),
                tp_row(*self, *point, 3),
            ),
            tp_row(*self, *point, 3) == 0 ==> r.x == tp_row(*self, *point, 0) && r.y == tp_row(
                *self,
                *point,
                1,
            ) && r.z == tp_row(*self, *point, 2),
    {
        let x = self.row_val(point, 0);
        let y = self.row_val(point, 1);
        let z = self.row_val(point, 2);
        let w = self.row_val(point, 3);
        if w != 0 {
            Vec3::new(fx_div(x, w), fx_div(y, w), fx_div(z, w))
        } else {
            Vec3::new(x, y, z)
        }
    }
}

/// Multiplying by the identity, on either side, returns the other
/// matrix unchanged: every product entry collapses to the matching
/// entry.
pub proof fn lemma_identity_multiply(idm: Mat4, m: Mat4)
    requires
        is_identity(idm),
        m4_bounded(m),
    ensures
        forall|i: int, j: int|
            0 <= i < 4 && 0 <= j < 4 ==> #[trigger] mul_entry(idm, m, i, j) == ent(m, i, j),
        forall|i: int, j: int|
            0 <= i < 4 && 0 <= j < 4 ==> #[trigger] mul_entry(m, idm, i, j) == ent(m, i, j),
{
    assert forall|i: int, j: int|
        0 <= i < 4 && 0 <= j < 4 implies #[trigger] mul_entry(idm, m, i, j) == ent(m, i, j) by {
        lemma_fxm_one(ent(m, 0, j));
        lemma_fxm_one(ent(m, 1, j));
        lemma_fxm_one(ent(m, 2, j));
        lemma_fxm_one(ent(m, 3, j));
    }
    assert forall|i: int, j: int|
        0 <= i < 4 && 0 <= j < 4 implies #[trigger] mul_entry(m, idm, i, j) == ent(m, i, j) by {
        lemma_fxm_one(ent(m, i, 0));
        lemma_fxm_one(ent(m, i, 1));
        lemma_fxm_one(ent(m, i, 2));
        lemma_fxm_one(ent(m, i, 3));
    }
}

/// Transforming a point by the identity returns the point: the
/// homogeneous coordinate is one and the division cancels.
pub proof fn lemma_transform_identity(idm: Mat4, p: Vec3)
    requires
        is_identity(idm),
        point_bounded3(p),
    ensures
        tp_row(idm, p, 3) == 65536,
        tp_row(idm, p, 0) == p.x,
        tp_row(idm, p, 1) == p.y,
        tp_row(idm, p, 2) == p.z,
        fxd(tp_row(idm, p, 0), tp_row(idm, p, 3)) == p.x,
        fxd(tp_row(idm, p, 1), tp_row(idm, p, 3)) == p.y,
        fxd(tp_row(idm, p, 2), tp_row(idm, p, 3)) == p.z,
{
    lemma_fxm_one(p.x as int);
    lemma_fxm_one(p.y as int);
    lemma_fxm_one(p.z as int);
    lemma_div_multiples_vanish(p.x as int, 65536);
    lemma_div_multiples_vanish(p.y as int, 65536);
    lemma_div_multiples_vanish(p.z as int, 65536);
    assert((p.x as int) * 65536 == 65536 * (p.x as int)) by (nonlinear_arith);
    assert((p.y as int) * 65536 == 65536 * (p.y as int)) by (nonlinear_arith);
    assert((p.z as int) * 65536 == 65536 * (p.z as int)) by (nonlinear_arith);
}

} // verus!
verus! {

/// A rotation as a unit quaternion; callers keep it unit-length, and
/// the contracts track the component arithmetic exactly.
#[derive(Debug, Clone, Copy, PartialEq, Eq, Structural)]
pub struct Quaternion {
    pub x: i64,
    pub y: i64,
    pub z: i64,
    pub w: i64,
}

/// Components within twice fixed-point one: the range of any unit-ish
/// quaternion, with margin for rounding.
pub open spec fn quat_bounded(q: Quaternion) -> bool {
    -150000 <= q.x <= 150000 && -150000 <= q.y <= 150000 && -150000 <= q.z <= 150000 && -150000
        <= q.w <= 150000
}

/// The entry of the standard quaternion-to-matrix conversion.
pub open spec fn quat_ent(q: Quaternion, i: int, j: int) -> int {
    let x2 = q.x + q.x;
    let y2 = q.y + q.y;
    let z2 = q.z + q.z;
    let xx2 = fxm(q.x as int, x2);
    let xy2 = fxm(q.x as int, y2);
    let xz2 = fxm(q.x as int, z2);
    let yy2 = fxm(q.y as int, y2);
    let yz2 = fxm(q.y as int, z2);
    let zz2 = fxm(q.z as int, z2);
    let wx2 = fxm(q.w as int, x2);
    let wy2 = fxm(q.w as int, y2);
    let wz2 = fxm(q.w as int, z2);
    if i == 0 && j == 0 {
        65536 - (yy2 + zz2)
    } else if i == 0 && j == 1 {
        xy2 - wz2
    } else if i == 0 && j == 2 {
        xz2 + wy2
    } else if i == 1 && j == 0 {
        xy2 + wz2
    } else if i == 1 && j == 1 {
        65536 - (xx2 + zz2)
    } else if i == 1 && j == 2 {
        yz2 - wx2
    } else if i == 2 && j == 0 {
        xz2 - wy2
    } else if i == 2 && j == 1 {
        yz2 + wx2
    } else if i == 2 && j == 2 {
        65536 - (xx2 + yy2)
    } else if i == j {
        65536int
    } else {
        0int
    }
}

impl Quaternion {
    pub fn identity() -> (r: Quaternion)
        ensures
            r == (Quaternion { x: 0i64, y: 0i64, z: 0i64, w: 65536i64 }),
    {
        Quaternion { x: 0, y: 0, z: 0, w: 65536 }
    }

    /// A rotation about an axis (normalized internally) by a fixed-point
    /// angle: the axis scaled by the sine of the half angle, with the
    /// cosine of the half angle as the scalar part.
    pub fn from_axis_angle(axis: &Vec3, angle: i64) -> (r: Quaternion)
        requires
            bounded3(*axis),
            -0x4000_0000_0000_0000 <= angle <= 0x4000_0000_0000_0000,
        ensures
            r.w == cos_fx(reduce_spec((angle as int) / 2)),
            mag3_spec(*axis) == 0 ==> r.x == 0 && r.y == 0 && r.z == 0,
            mag3_spec(*axis) != 0 ==> r.x == fxm(
                fxd(axis.x as int, mag3_spec(*axis)),
                sin_fx(reduce_spec((angle as int) / 2)),
            ) && r.y == fxm(
                fxd(axis.y as int, mag3_spec(*axis)),
                sin_fx(reduce_spec((angle as int) / 2)),
            ) && r.z == fxm(
                fxd(axis.z as int, mag3_spec(*axis)),
                sin_fx(reduce_spec((angle as int) / 2)),
            ),
            quat_bounded(r),
    {
        let half_angle: i64 = angle.checked_div_euclid(2).unwrap();
        let ra = reduce_angle(half_angle);
        let sin_half = fx_sin(ra);
        let normalized = axis.normalize();
        proof {
            lemma_fxm_bound(normalized.x as int, sin_half as int, 65536, 131072);
            lemma_fxm_bound(normalized.y as int, sin_half as int, 65536, 131072);
            lemma_fxm_bound(normalized.z as int, sin_half as int, 65536, 131072);
            lemma_fxm_one(sin_half as int);
        }
        Quaternion {
            x: fx_mul(normalized.x, sin_half),
            y: fx_mul(normalized.y, sin_half),
            z: fx_mul(normalized.z, sin_half),
            w: fx_cos(ra),
        }
    }

    /// The equivalent rotation matrix, by the standard quaternion
    /// formula over fixed-point products.
    pub fn to_matrix(&self) -> (r: Mat4)
        requires
            quat_bounded(*self),
        ensures
            forall|i: int, j: int|
                0 <= i < 4 && 0 <= j < 4 ==> #[trigger] ent(r, i, j) == quat_ent(*self, i, j),
    {
        let x2 = self.x + self.x;
        let y2 = self.y + self.y;
        let z2 = self.z + self.z;
        proof {
            lemma_fxm_bound(self.x as int, x2 as int, 150000, 300000);
            lemma_fxm_bound(self.x as int, y2 as int, 150000, 300000);
            lemma_fxm_bound(self.x as int, z2 as int, 150000, 300000);
            lemma_fxm_bound(self.y as int, y2 as int, 150000, 300000);
            lemma_fxm_bound(self.y as int, z2 as int, 150000, 300000);
            lemma_fxm_bound(self.z as int, z2 as int, 150000, 300000);
            lemma_fxm_bound(self.w as int, x2 as int, 150000, 300000);
            lemma_fxm_bound(self.w as int, y2 as int, 150000, 300000);
            lemma_fxm_bound(self.w as int, z2 as int, 150000, 300000);
        }
        let xx2 = fx_mul(self.x, x2);
        let xy2 = fx_mul(self.x, y2);
        let xz2 = fx_mul(self.x, z2);
        let yy2 = fx_mul(self.y, y2);
        let yz2 = fx_mul(self.y, z2);
        let zz2 = fx_mul(self.z, z2);
        let wx2 = fx_mul(self.w, x2);
        let wy2 = fx_mul(self.w, y2);
        let wz2 = fx_mul(self.w, z2);
        Mat4 {
            data: [
                [65536 - (yy2 + zz2), xy2 - wz2, xz2 + wy2, 0],
                [xy2 + wz2, 65536 - (xx2 + zz2), yz2 - wx2, 0],
                [xz2 - wy2, yz2 + wx2, 65536 - (xx2 + yy2), 0],
                [0, 0, 0, 65536],
            ],
        }
    }
}

} // verus!
verus! {

/// One component's scaled square is squeezed between the squares of
/// its quotient stepped one down and one up.
proof fn lemma_norm_comp_squeeze(x: int, m: int)
    requires
        1 <= m,
        -m <= x <= m,
    ensures
        ({
            let n = fxd(x, m);
            let h = fx_abs(n);
            m * m * (h * h - 2 * h) <= (x * 65536) * (x * 65536) && (x * 65536) * (x * 65536)
                <= m * m * ((h + 1) * (h + 1))
        }),
{
    let a = x * 65536;
    let n = fxd(x, m);
    vstd::arithmetic::div_mod::lemma_fundamental_div_mod(a, m);
    vstd::arithmetic::div_mod::lemma_mod_bound(a, m);
    let r = a % m;
    let h = fx_abs(n);
    assert(m * m * (h * h - 2 * h) <= a * a && a * a <= m * m * ((h + 1) * (h + 1)))
        by (nonlinear_arith)
        requires
            a == m * n + r,
            0 <= r < m,
            1 <= m,
            h == n || h == -n,
            0 <= h,
    ;
}

/// The law of unit normalization: a vector of at least unit magnitude
/// normalizes to a vector whose magnitude is one within four
/// fixed-point steps.
pub proof fn lemma_normalize_unit(v: Vec3)
    requires
        bounded3(v),
        mag3_spec(v) >= 65536,
    ensures
        65532 <= mag3_spec(spec_normalize3(v)) <= 65540,
{
    let m = mag3_spec(v);
    let s = v.x * v.x + v.y * v.y + v.z * v.z;
    lemma_sqrt_floor_bounds(s);
    assert(v.x * v.x <= s && v.y * v.y <= s && v.z * v.z <= s) by (nonlinear_arith)
        requires
            s == v.x * v.x + v.y * v.y + v.z * v.z,
    ;
    lemma_comp_le_mag(v.x as int, s);
    lemma_comp_le_mag(v.y as int, s);
    lemma_comp_le_mag(v.z as int, s);
    lemma_fxd_unit(v.x as int, m);
    lemma_fxd_unit(v.y as int, m);
    lemma_fxd_unit(v.z as int, m);
    lemma_norm_comp_squeeze(v.x as int, m);
    lemma_norm_comp_squeeze(v.y as int, m);
    lemma_norm_comp_squeeze(v.z as int, m);
    let n1 = fxd(v.x as int, m);
    let n2 = fxd(v.y as int, m);
    let n3 = fxd(v.z as int, m);
    let h1 = fx_abs(n1);
    let h2 = fx_abs(n2);
    let h3 = fx_abs(n3);
    let nsum = n1 * n1 + n2 * n2 + n3 * n3;
    let hsum = h1 + h2 + h3;
    assert(n1 * n1 == h1 * h1 && n2 * n2 == h2 * h2 && n3 * n3 == h3 * h3) by (nonlinear_arith)
        requires
            h1 == n1 || h1 == -n1,
            h2 == n2 || h2 == -n2,
            h3 == n3 || h3 == -n3,
    ;
    // The scaled squared magnitude in both directions.
    let f2s = (v.x * 65536) * (v.x * 65536) + (v.y * 65536) * (v.y * 65536) + (v.z * 65536) * (
    v.z * 65536);
    assert(f2s == 65536 * 65536 * s) by (nonlinear_arith)
        requires
            s == v.x * v.x + v.y * v.y + v.z * v.z,
            f2s == (v.x * 65536) * (v.x * 65536) + (v.y * 65536) * (v.y * 65536) + (v.z * 65536)
                * (v.z * 65536),
    ;
    // Lower bound on the squared normalized magnitude: the scaled
    // squares sum to at least the squared magnitude, and each is at
    // most the stepped-up quotient square.
    let q = (h1 + 1) * (h1 + 1) + (h2 + 1) * (h2 + 1) + (h3 + 1) * (h3 + 1);
    assert(m * m * ((h1 + 1) * (h1 + 1)) + m * m * ((h2 + 1) * (h2 + 1)) + m * m * ((h3 + 1) * (
    h3 + 1)) == m * m * q) by (nonlinear_arith)
        requires
            q == (h1 + 1) * (h1 + 1) + (h2 + 1) * (h2 + 1) + (h3 + 1) * (h3 + 1),
    ;
    assert(q == nsum + 2 * hsum + 3) by (nonlinear_arith)
        requires
            q == (h1 + 1) * (h1 + 1) + (h2 + 1) * (h2 + 1) + (h3 + 1) * (h3 + 1),
            nsum == h1 * h1 + h2 * h2 + h3 * h3,
            hsum == h1 + h2 + h3,
    ;
    assert(65536 * 65536 * (m * m) <= 65536 * 65536 * s) by (nonlinear_arith)
        requires
            m * m <= s,
    ;
    assert(65536 * 65536 <= q) by (nonlinear_arith)
        requires
            65536 * 65536 * (m * m) <= m * m * q,
            1 <= m,
    ;
    assert(65536 * 65536 - 6 * 65536 - 3 <= nsum);
    // Upper bound: the scaled squares are at least the stepped-down
    // quotient squares, and the magnitude bound caps the sum.
    let d = nsum - 2 * hsum;
    assert(m * m * (h1 * h1 - 2 * h1) + m * m * (h2 * h2 - 2 * h2) + m * m * (h3 * h3 - 2 * h3)
        == m * m * d) by (nonlinear_arith)
        requires
            d == h1 * h1 + h2 * h2 + h3 * h3 - 2 * (h1 + h2 + h3),
            nsum == h1 * h1 + h2 * h2 + h3 * h3,
            hsum == h1 + h2 + h3,
            d == nsum - 2 * hsum,
    ;
    assert(65536 * 65536 * s <= 65536 * 65536 * (m * m + 2 * m)) by (nonlinear_arith)
        requires
            s < (m + 1) * (m + 1),
    ;
    assert(d <= 65536 * 65536 + 2 * 65536) by (nonlinear_arith)
        requires
            m * m * d <= 65536 * 65536 * (m * m + 2 * m),
            65536 <= m,
    ;
    assert(nsum <= 65536 * 65536 + 8 * 65536);
    // Squeeze the floor square root.
    let t = sqrt_floor(nsum);
    lemma_sqrt_floor_bounds(nsum);
    assert(65532 <= t <= 65540) by (nonlinear_arith)
        requires
            t * t <= nsum,
            nsum < (t + 1) * (t + 1),
            0 <= t,
            65536 * 65536 - 6 * 65536 - 3 <= nsum,
            nsum <= 65536 * 65536 + 8 * 65536,
    ;
    // The normalized vector's fields carry exactly the quotients.
    let nv = spec_normalize3(v);
    assert(nv.x == n1 && nv.y == n2 && nv.z == n3);
    assert(mag3_spec(nv) == t);
}

} // verus!
verus! {

/// The exact part of rotation orthogonality: a rotation about the x
/// axis carries a point's x coordinate through unchanged, with a unit
/// homogeneous coordinate, so the rotation acts only in the plane of
/// the other two axes.  (The full orthogonality of the trigonometric
/// block holds only up to rounding, which the fixed-point entries
/// cannot state exactly.)
pub proof fn lemma_rotation_x_fixes_axis(r: Mat4, c: int, s: int, p: Vec3)
    requires
        forall|i: int, j: int| 0 <= i < 4 && 0 <= j < 4 ==> #[trigger] ent(r, i, j) == rot_x_ent(
            c,
            s,
            i,
            j,
        ),
        point_bounded3(p),
    ensures
        tp_row(r, p, 0) == p.x,
        tp_row(r, p, 3) == 65536,
        fxd(tp_row(r, p, 0), tp_row(r, p, 3)) == p.x,
{
    lemma_fxm_one(p.x as int);
    lemma_fxm_one(p.y as int);
    lemma_fxm_one(p.z as int);
    lemma_div_multiples_vanish(p.x as int, 65536);
    assert((p.x as int) * 65536 == 65536 * (p.x as int)) by (nonlinear_arith);
}

} // verus!
