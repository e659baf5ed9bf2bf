//! The camera: position and orientation state, with the derived basis
//! vectors and the view and projection transforms.  Angles are
//! fixed-point radians; the trigonometric values come from the CORDIC
//! routines named in `crate::fx`.

use vstd::prelude::*;
use crate::fx::{
    fxm, fxd, fits_coord, fits_point,
    fx_mul, fx_div, fx_sin, fx_cos, fx_asin, fx_atan2,
    sin_fx, cos_fx, asin_fx, atan2_fx, reduce_angle, reduce_spec,
    lemma_fxm_bound, lemma_fxm_one, lemma_fxd_unit, lemma_fxd_bound, lemma_sqrt_floor_bounds,
};
use crate::math::{
    Vec3, Mat4, bounded3, mag3_spec, spec_normalize3, spec_cross, dot3_spec,
    point_bounded3, ent, lemma_comp_le_mag,
};

verus! {

/// Mutable camera state: position, look-at target, up vector, Euler
/// angles in fixed-point radians, field of view in fixed-point degrees,
/// and clip distances.
#[derive(Debug, Clone, Copy)]
pub struct Camera {
    pub position: Vec3,
    pub target: Vec3,
    pub up: Vec3,
    pub yaw: i64,
    pub pitch: i64,
    pub roll: i64,
    pub fov: i64,
    pub near_plane: i64,
    pub far_plane: i64,
}

/// Angles small enough for whole-turn reduction.
pub open spec fn angle_ok(a: int) -> bool {
    -0x4000_0000_0000_0000 <= a <= 0x4000_0000_0000_0000
}

/// An up vector of unit scale, with margin: what the camera is built
/// with and what the basis derivation expects.
pub open spec fn up_ok(v: Vec3) -> bool {
    -131072 <= v.x <= 131072 && -131072 <= v.y <= 131072 && -131072 <= v.z <= 131072
}

/// The un-normalized forward vector from yaw and pitch: the standard
/// spherical-to-Cartesian basis vector.
pub open spec fn spec_fwd_raw(c: Camera) -> Vec3 {
    Vec3 {
        x: fxm(
            cos_fx(reduce_spec(c.yaw as int)),
            cos_fx(reduce_spec(c.pitch as int)),
        ) as i64,
        y: sin_fx(reduce_spec(c.pitch as int)) as i64,
        z: fxm(
            sin_fx(reduce_spec(c.yaw as int)),
            cos_fx(reduce_spec(c.pitch as int)),
        ) as i64,
    }
}

/// What `get_forward` returns.
pub open spec fn spec_forward(c: Camera) -> Vec3 {
    spec_normalize3(spec_fwd_raw(c))
}

/// What `get_right` returns.
pub open spec fn spec_right(c: Camera) -> Vec3 {
    spec_normalize3(spec_cross(spec_forward(c), c.up))
}

/// The recalculated up vector of the view basis.
pub open spec fn spec_view_up(c: Camera) -> Vec3 {
    spec_normalize3(spec_cross(spec_right(c), spec_forward(c)))
}

/// The difference vector from a camera's position to a target.
pub open spec fn look_dir(c: Camera, target: Vec3) -> Vec3 {
    Vec3 {
        x: (target.x - c.position.x) as i64,
        y: (target.y - c.position.y) as i64,
        z: (target.z - c.position.z) as i64,
    }
}

/// The pitch clamp applied by `rotate_pitch`: just inside plus or minus
/// half pi, to keep the basis away from gimbal lock.
pub open spec fn clamp_pitch(p: int) -> int {
    if p > 102288 {
        102288int
    } else if p < -102288 {
        -102288int
    } else {
        p
    }
}

/// The entry of the view matrix: the orthonormal basis as rows, with
/// translation by the negated basis-position products.
pub open spec fn view_ent(c: Camera, i: int, j: int) -> int {
    let f = spec_forward(c);
    let r = spec_right(c);
    let u = spec_view_up(c);
    if i == 0 {
        if j == 0 {
            r.x as int
        } else if j == 1 {
            r.y as int
        } else if j == 2 {
            r.z as int
        } else {
            -dot3_spec(r, c.position)
        }
    } else if i == 1 {
        if j == 0 {
            u.x as int
        } else if j == 1 {
            u.y as int
        } else if j == 2 {
            u.z as int
        } else {
            -dot3_spec(u, c.position)
        }
    } else if i == 2 {
        if j == 0 {
            -(f.x as int)
        } else if j == 1 {
            -(f.y as int)
        } else if j == 2 {
            -(f.z as int)
        } else {
            dot3_spec(f, c.position)
        }
    } else {
        if j == 3 {
            65536int
        } else {
            0int
        }
    }
}

/// The perspective scale derived from the field of view: the inverse of
/// the tangent of half the angle, or zero where the tangent degenerates.
pub open spec fn proj_f(fov: int) -> int {
    let ra = reduce_spec(fxm(fov, 1144) / 2);
    if cos_fx(ra) == 0 {
        0int
    } else if fxd(sin_fx(ra), cos_fx(ra)) == 0 {
        0int
    } else {
        fxd(65536, fxd(sin_fx(ra), cos_fx(ra)))
    }
}

/// The entry of the perspective projection matrix.
pub open spec fn proj_ent(c: Camera, width: int, height: int, i: int, j: int) -> int {
    let f = proj_f(c.fov as int);
    let aspect = fxd(width * 65536, height * 65536);
    if i == 0 && j == 0 {
        fxd(f, aspect)
    } else if i == 1 && j == 1 {
        f
    } else if i == 2 && j == 2 {
        fxd(c.far_plane + c.near_plane, c.near_plane - c.far_plane)
    } else if i == 2 && j == 3 {
        fxd(2 * fxm(c.far_plane as int, c.near_plane as int), c.near_plane - c.far_plane)
    } else if i == 3 && j == 2 {
        -65536int
    } else {
        0int
    }
}

impl Camera {
    /// A camera at a position aimed at a target, with the default up
    /// vector, a 45 degree field of view and the standard clip planes.
    pub fn new(position: Vec3, target: Vec3) -> (r: Camera)
        ensures
            r.position == position,
            r.target == target,
            r.up == (Vec3 { x: 0i64, y: 65536i64, z: 0i64 }),
            r.yaw == 0,
            r.pitch == 0,
            r.roll == 0,
            r.fov == 2949120,
            r.near_plane == 6554,
            r.far_plane == 655360000,
    {
        Camera {
            position,
            target,
            up: Vec3 { x: 0, y: 65536, z: 0 },
            yaw: 0,
            pitch: 0,
            roll: 0,
            fov: 2949120,
            near_plane: 6554,
            far_plane: 655360000,
        }
    }

    /// Re-aims at a target: stores it and derives yaw and pitch from the
    /// difference vector.  This path does not clamp the pitch; a target
    /// straight above or below drives it to half pi.  A target equal to
    /// the position has no direction, so the contract excludes it.
    pub fn look_at(&mut self, target: Vec3)
        requires
            point_bounded3(old(self).position),
            point_bounded3(target),
            target != old(self).position,
        ensures
            final(self).target == target,
            final(self).position == old(self).position,
            final(self).up == old(self).up,
            final(self).roll == old(self).roll,
            final(self).fov == old(self).fov,
            final(self).near_plane == old(self).near_plane,
            final(self).far_plane == old(self).far_plane,
            final(self).yaw == atan2_fx(
                look_dir(*old(self), target).z as int,
                look_dir(*old(self), target).x as int,
            ),
            final(self).pitch == asin_fx(
                fxd(
                    look_dir(*old(self), target).y as int,
                    mag3_spec(look_dir(*old(self), target)),
                ),
            ),
    {
        self.target = target;
        let fwd = target.sub(&self.position);
        let mag = fwd.magnitude();
        proof {
            if fwd.x == 0 && fwd.y == 0 && fwd.z == 0 {
                assert(target == old(self).position);
            }
            assert(fwd.x * fwd.x + fwd.y * fwd.y + fwd.z * fwd.z >= 1) by (nonlinear_arith)
                requires
                    fwd.x != 0 || fwd.y != 0 || fwd.z != 0,
            ;
            let s = fwd.x * fwd.x + fwd.y * fwd.y + fwd.z * fwd.z;
            lemma_sqrt_floor_bounds(s);
            if mag == 0 {
                assert(s < (0int + 1) * (0int + 1));
            }
            assert(fwd.y * fwd.y <= s) by (nonlinear_arith)
                requires
                    s == fwd.x * fwd.x + fwd.y * fwd.y + fwd.z * fwd.z,
            ;
            lemma_comp_le_mag(fwd.y as int, s);
            lemma_fxd_unit(fwd.y as int, mag as int);
        }
        self.yaw = fx_atan2(fwd.z, fwd.x);
        let ratio = fx_div(fwd.y, mag);
        self.pitch = fx_asin(ratio);
    }

    /// Slides position and target along the derived forward direction.
    pub fn move_forward(&mut self, distance: i64)
        requires
            angle_ok(old(self).yaw as int),
            angle_ok(old(self).pitch as int),
            bounded3(old(self).position),
            bounded3(old(self).target),
            -0x20_0000_0000 <= distance <= 0x20_0000_0000,
        ensures
            ({
                let d = spec_forward(*old(self));
                final(self).position.x == old(self).position.x + fxm(d.x as int, distance as int)
                    && final(self).position.y == old(self).position.y + fxm(
                    d.y as int,
                    distance as int,
                ) && final(self).position.z == old(self).position.z + fxm(
                    d.z as int,
                    distance as int,
                ) && final(self).target.x == old(self).target.x + fxm(d.x as int, distance as int)
                    && final(self).target.y == old(self).target.y + fxm(d.y as int, distance as int)
                    && final(self).target.z == old(self).target.z + fxm(d.z as int, distance as int)
            }),
            final(self).up == old(self).up,
            final(self).yaw == old(self).yaw,
            final(self).pitch == old(self).pitch,
            final(self).roll == old(self).roll,
            final(self).fov == old(self).fov,
            final(self).near_plane == old(self).near_plane,
            final(self).far_plane == old(self).far_plane,
    {
        let direction = self.get_forward();
        proof {
            lemma_fxm_bound(direction.x as int, distance as int, 65536, 0x20_0000_0000);
            lemma_fxm_bound(direction.y as int, distance as int, 65536, 0x20_0000_0000);
            lemma_fxm_bound(direction.z as int, distance as int, 65536, 0x20_0000_0000);
        }
        let step = direction.mul_scalar(distance);
        self.position = self.position.add(&step);
        self.target = self.target.add(&step);
    }

    /// Slides position and target along the derived right direction.
    pub fn move_right(&mut self, distance: i64)
        requires
            angle_ok(old(self).yaw as int),
            angle_ok(old(self).pitch as int),
            up_ok(old(self).up),
            bounded3(old(self).position),
            bounded3(old(self).target),
            -0x20_0000_0000 <= distance <= 0x20_0000_0000,
        ensures
            ({
                let d = spec_right(*old(self));
                final(self).position.x == old(self).position.x + fxm(d.x as int, distance as int)
                    && final(self).position.y == old(self).position.y + fxm(
                    d.y as int,
                    distance as int,
                ) && final(self).position.z == old(self).position.z + fxm(
                    d.z as int,
                    distance as int,
                ) && final(self).target.x == old(self).target.x + fxm(d.x as int, distance as int)
                    && final(self).target.y == old(self).target.y + fxm(d.y as int, distance as int)
                    && final(self).target.z == old(self).target.z + fxm(d.z as int, distance as int)
            }),
            final(self).up == old(self).up,
            final(self).yaw == old(self).yaw,
            final(self).pitch == old(self).pitch,
            final(self).roll == old(self).roll,
            final(self).fov == old(self).fov,
            final(self).near_plane == old(self).near_plane,
            final(self).far_plane == old(self).far_plane,
    {
        let direction = self.get_right();
        proof {
            lemma_fxm_bound(direction.x as int, distance as int, 65536, 0x20_0000_0000);
            lemma_fxm_bound(direction.y as int, distance as int, 65536, 0x20_0000_0000);
            lemma_fxm_bound(direction.z as int, distance as int, 65536, 0x20_0000_0000);
        }
        let step = direction.mul_scalar(distance);
        self.position = self.position.add(&step);
        self.target = self.target.add(&step);
    }

    /// Slides position and target along world up, whatever the tilt.
    pub fn move_up(&mut self, distance: i64)
        requires
            bounded3(old(self).position),
            bounded3(old(self).target),
            fits_coord(distance as int),
        ensures
            final(self).position.x == old(self).position.x,
            final(self).position.y == old(self).position.y + distance,
            final(self).position.z == old(self).position.z,
            final(self).target.x == old(self).target.x,
            final(self).target.y == old(self).target.y + distance,
            final(self).target.z == old(self).target.z,
            final(self).up == old(self).up,
            final(self).yaw == old(self).yaw,
            final(self).pitch == old(self).pitch,
            final(self).roll == old(self).roll,
            final(self).fov == old(self).fov,
            final(self).near_plane == old(self).near_plane,
            final(self).far_plane == old(self).far_plane,
    {
        let direction = Vec3 { x: 0, y: 65536, z: 0 };
        proof {
            lemma_fxm_one(distance as int);
        }
        let step = direction.mul_scalar(distance);
        self.position = self.position.add(&step);
        self.target = self.target.add(&step);
    }

    /// Adds to the yaw unconditionally; the angle wraps through the
    /// reduction inside the trigonometry.
    pub fn rotate_yaw(&mut self, angle: i64)
        requires
            angle_ok(old(self).yaw + angle),
        ensures
            final(self).yaw == old(self).yaw + angle,
            final(self).pitch == old(self).pitch,
            final(self).position == old(self).position,
            final(self).target == old(self).target,
            final(self).up == old(self).up,
            final(self).roll == old(self).roll,
            final(self).fov == old(self).fov,
            final(self).near_plane == old(self).near_plane,
            final(self).far_plane == old(self).far_plane,
    {
        self.yaw = self.yaw + angle;
    }

    /// Adds to the pitch, then clamps it just inside plus or minus half
    /// pi: the one path that enforces the gimbal-lock guard, so after
    /// any sequence of these calls the pitch stays within the limits.
    pub fn rotate_pitch(&mut self, angle: i64)
        requires
            angle_ok(old(self).pitch + angle),
        ensures
            final(self).pitch == clamp_pitch(old(self).pitch + angle),
            -102288 <= final(self).pitch <= 102288,
            final(self).yaw == old(self).yaw,
            final(self).position == old(self).position,
            final(self).target == old(self).target,
            final(self).up == old(self).up,
            final(self).roll == old(self).roll,
            final(self).fov == old(self).fov,
            final(self).near_plane == old(self).near_plane,
            final(self).far_plane == old(self).far_plane,
    {
        let p = self.pitch + angle;
        if p > 102288 {
            self.pitch = 102288;
        } else if p < -102288 {
            self.pitch = -102288;
        } else {
            self.pitch = p;
        }
    }

    /// The unit forward vector derived from yaw and pitch alone.
    pub fn get_forward(&self) -> (r: Vec3)
        requires
            angle_ok(self.yaw as int),
            angle_ok(self.pitch as int),
        ensures
            r == spec_forward(*self),
            bounded3(r),
            -65536 <= r.x <= 65536,
            -65536 <= r.y <= 65536,
            -65536 <= r.z <= 65536,
    {
        let ry = reduce_angle(self.yaw);
        let rp = reduce_angle(self.pitch);
        let cy = fx_cos(ry);
        let sy = fx_sin(ry);
        let cp = fx_cos(rp);
        let sp = fx_sin(rp);
        proof {
            lemma_fxm_bound(cy as int, cp as int, 131072, 131072);
            lemma_fxm_bound(sy as int, cp as int, 131072, 131072);
        }
        let v = Vec3 { x: fx_mul(cy, cp), y: sp, z: fx_mul(sy, cp) };
        proof {
            assert(v == spec_fwd_raw(*self));
        }
        v.normalize()
    }

    /// The unit right vector: forward crossed with the up field.
    pub fn get_right(&self) -> (r: Vec3)
        requires
            angle_ok(self.yaw as int),
            angle_ok(self.pitch as int),
            up_ok(self.up),
        ensures
            r == spec_right(*self),
            bounded3(r),
            -65536 <= r.x <= 65536,
            -65536 <= r.y <= 65536,
            -65536 <= r.z <= 65536,
    {
        let forward = self.get_forward();
        let c = forward.cross(&self.up);
        proof {
            lemma_fxm_bound(forward.y as int, self.up.z as int, 65536, 131072);
            lemma_fxm_bound(forward.z as int, self.up.y as int, 65536, 131072);
            lemma_fxm_bound(forward.z as int, self.up.x as int, 65536, 131072);
            lemma_fxm_bound(forward.x as int, self.up.z as int, 65536, 131072);
            lemma_fxm_bound(forward.x as int, self.up.y as int, 65536, 131072);
            lemma_fxm_bound(forward.y as int, self.up.x as int, 65536, 131072);
        }
        c.normalize()
    }

    /// The right-handed look-at view matrix: the recomputed orthonormal
    /// basis as rows, translation as negated basis-position products.
    pub fn get_view_matrix(&self) -> (r: Mat4)
        requires
            angle_ok(self.yaw as int),
            angle_ok(self.pitch as int),
            up_ok(self.up),
            bounded3(self.position),
        ensures
            forall|i: int, j: int|
                0 <= i < 4 && 0 <= j < 4 ==> #[trigger] ent(r, i, j) == view_ent(*self, i, j),
    {
        let forward = self.get_forward();
        let right = self.get_right();
        let cu = right.cross(&forward);
        proof {
            lemma_fxm_bound(right.y as int, forward.z as int, 65536, 65536);
            lemma_fxm_bound(right.z as int, forward.y as int, 65536, 65536);
            lemma_fxm_bound(right.z as int, forward.x as int, 65536, 65536);
            lemma_fxm_bound(right.x as int, forward.z as int, 65536, 65536);
            lemma_fxm_bound(right.x as int, forward.y as int, 65536, 65536);
            lemma_fxm_bound(right.y as int, forward.x as int, 65536, 65536);
        }
        let up = cu.normalize();
        let tx = -right.dot(&self.position);
        let ty = -up.dot(&self.position);
        let tz = forward.dot(&self.position);
        Mat4 {
            data: [
                [right.x, right.y, right.z, tx],
                [up.x, up.y, up.z, ty],
                [-forward.x, -forward.y, -forward.z, tz],
                [0, 0, 0, 65536],
            ],
        }
    }

    /// The perspective projection for a viewport, from the field of
    /// view, the aspect ratio and the clip planes.  Degenerate tangents
    /// give a zero scale rather than failing.
    pub fn get_projection_matrix(&self, width: usize, height: usize) -> (r: Mat4)
        requires
            1 <= width <= 8192,
            1 <= height <= 8192,
            fits_coord(self.fov as int),
            fits_coord(self.near_plane as int),
            fits_coord(self.far_plane as int),
            self.near_plane != self.far_plane,
            -0x2000_0000_0000 <= fxm(self.far_plane as int, self.near_plane as int)
                <= 0x2000_0000_0000,
        ensures
            forall|i: int, j: int|
                0 <= i < 4 && 0 <= j < 4 ==> #[trigger] ent(r, i, j) == proj_ent(
                    *self,
                    width as int,
                    height as int,
                    i,
                    j,
                ),
    {
        let w_fx: i64 = (width as i64) * 65536;
        let h_fx: i64 = (height as i64) * 65536;
        let aspect = fx_div(w_fx, h_fx);
        proof {
            assert(w_fx * 65536 >= 65536 * 65536) by (nonlinear_arith)
                requires
                    w_fx >= 65536,
            ;
            vstd::arithmetic::div_mod::lemma_div_is_ordered(
                0x1_0000_0000int,
                (w_fx as int) * 65536,
                h_fx as int,
            );
            vstd::arithmetic::div_mod::lemma_div_is_ordered_by_denominator(
                0x1_0000_0000int,
                h_fx as int,
                0x2000_0000int,
            );
        }
        let fov_rad = fx_mul(self.fov, 1144);
        let half: i64 = fov_rad.checked_div_euclid(2).unwrap();
        let ra = reduce_angle(half);
        let s = fx_sin(ra);
        let c = fx_cos(ra);
        let f: i64 = if c != 0 {
            let t = fx_div(s, c);
            if t != 0 {
                proof {
                    lemma_fxd_bound(65536, t as int);
                }
                fx_div(65536, t)
            } else {
                0
            }
        } else {
            0
        };
        let m22 = fx_div(self.far_plane + self.near_plane, self.near_plane - self.far_plane);
        let m23 = fx_div(
            2 * fx_mul(self.far_plane, self.near_plane),
            self.near_plane - self.far_plane,
        );
        let m00 = fx_div(f, aspect);
        Mat4 {
            data: [
                [m00, 0, 0, 0],
                [0, f, 0, 0],
                [0, 0, m22, m23],
                [0, 0, -65536, 0],
            ],
        }
    }

    /// Teleports to a point `distance` back from the target along the
    /// current direction to it, then re-aims.  The contract asks for a
    /// non-degenerate direction: the scaled offset must not vanish, so
    /// the re-aim has a direction to work with.
    pub fn warp_to(&mut self, target: Vec3, distance: i64)
        requires
            -0x1000_0000 <= target.x <= 0x1000_0000,
            -0x1000_0000 <= target.y <= 0x1000_0000,
            -0x1000_0000 <= target.z <= 0x1000_0000,
            -0x1000_0000 <= distance <= 0x1000_0000,
            point_bounded3(old(self).position),
            target != old(self).position,
            ({
                let d = spec_normalize3(look_dir(*old(self), target));
                fxm(d.x as int, distance as int) != 0 || fxm(d.y as int, distance as int) != 0
                    || fxm(d.z as int, distance as int) != 0
            }),
        ensures
            ({
                let d = spec_normalize3(look_dir(*old(self), target));
                let ox = fxm(d.x as int, distance as int);
                let oy = fxm(d.y as int, distance as int);
                let oz = fxm(d.z as int, distance as int);
                let np = Vec3 {
                    x: (target.x - ox) as i64,
                    y: (target.y - oy) as i64,
                    z: (target.z - oz) as i64,
                };
                let back = Vec3 { x: ox as i64, y: oy as i64, z: oz as i64 };
                final(self).position == np && final(self).target == target && final(self).yaw
                    == atan2_fx(back.z as int, back.x as int) && final(self).pitch == asin_fx(
                    fxd(back.y as int, mag3_spec(back)),
                )
            }),
            final(self).up == old(self).up,
            final(self).roll == old(self).roll,
            final(self).fov == old(self).fov,
            final(self).near_plane == old(self).near_plane,
            final(self).far_plane == old(self).far_plane,
    {
        let direction = (target.sub(&self.position)).normalize();
        proof {
            lemma_fxm_bound(direction.x as int, distance as int, 65536, 0x1000_0000);
            lemma_fxm_bound(direction.y as int, distance as int, 65536, 0x1000_0000);
            lemma_fxm_bound(direction.z as int, distance as int, 65536, 0x1000_0000);
        }
        let offset = direction.mul_scalar(distance);
        self.position = target.sub(&offset);
        self.target = target;
        self.look_at(target);
    }
}

} // verus!
