//! Celestial bodies: the drawable objects of the scene.  The core
//! consumes only their position, radius and color; the orbital updates
//! here are the simple arithmetic that feeds those fields.

use vstd::prelude::*;
use crate::fx::{
    fxm, fxd, fx_abs, fits_coord, fits_point,
    fx_mul, fx_div, fx_sin, fx_cos, sin_fx, cos_fx, reduce_angle, reduce_spec,
    lemma_fxm_bound, lemma_fxd_bound,
};
use crate::math::{
    Vec3, Mat4, bounded3, mag3_spec, ent, rot_x_ent, rot_y_ent, translation_ent,
};
use vstd::arithmetic::div_mod::lemma_mod_bound;

verus! {

/// The kind of a body, which picks its default mass and spin.
#[derive(Debug, Clone, Copy, PartialEq, Eq, Structural)]
pub enum BodyType {
    Star,
    Planet,
    Moon,
}

/// A drawable body: position, motion and display attributes.  Masses
/// are plain kilograms; every geometric field is a fixed-point scalar.
#[derive(Debug, Clone)]
pub struct CelestialBody {
    pub name: String,
    pub position: Vec3,
    pub velocity: Vec3,
    pub radius: i64,
    pub mass: u128,
    pub color: u32,
    pub rotation_angle: i64,
    pub rotation_speed: i64,
    pub orbital_radius: i64,
    pub orbital_speed: i64,
    pub body_type: BodyType,
    pub tilt: i64,
}

/// The entry of the composed spin transform: the y rotation by the
/// body's angle times the x rotation by its tilt.
pub open spec fn spin_ent(angle: int, tilt: int, i: int, j: int) -> int {
    let cy = cos_fx(reduce_spec(angle));
    let sy = sin_fx(reduce_spec(angle));
    let cx = cos_fx(reduce_spec(tilt));
    let sx = sin_fx(reduce_spec(tilt));
    fxm(rot_y_ent(cy, sy, i, 0), rot_x_ent(cx, sx, 0, j)) + fxm(
        rot_y_ent(cy, sy, i, 1),
        rot_x_ent(cx, sx, 1, j),
    ) + fxm(rot_y_ent(cy, sy, i, 2), rot_x_ent(cx, sx, 2, j)) + fxm(
        rot_y_ent(cy, sy, i, 3),
        rot_x_ent(cx, sx, 3, j),
    )
}

/// The entry of the body's full transform: translation to its position
/// composed with the spin.
pub open spec fn body_transform_ent(p: Vec3, angle: int, tilt: int, i: int, j: int) -> int {
    fxm(translation_ent(p.x as int, p.y as int, p.z as int, i, 0), spin_ent(angle, tilt, 0, j))
        + fxm(translation_ent(p.x as int, p.y as int, p.z as int, i, 1), spin_ent(angle, tilt, 1, j))
        + fxm(translation_ent(p.x as int, p.y as int, p.z as int, i, 2), spin_ent(angle, tilt, 2, j))
        + fxm(translation_ent(p.x as int, p.y as int, p.z as int, i, 3), spin_ent(angle, tilt, 3, j))
}

impl CelestialBody {
    /// A star: stationary, heavy, slowly spinning.
    pub fn new_star(name: &str, position: Vec3, radius: i64, color: u32) -> (r: CelestialBody)
        ensures
            r.name@ == name@,
            r.position == position,
            r.velocity == (Vec3 { x: 0i64, y: 0i64, z: 0i64 }),
            r.radius == radius,
            r.mass == 1000000000000000000000000000000u128,
            r.color == color,
            r.rotation_angle == 0,
            r.rotation_speed == 32768,
            r.orbital_radius == 0,
            r.orbital_speed == 0,
            r.body_type == BodyType::Star,
            r.tilt == 0,
    {
        CelestialBody {
            name: name.to_string(),
            position,
            velocity: Vec3::zero(),
            radius,
            mass: 1000000000000000000000000000000u128,
            color,
            rotation_angle: 0,
            rotation_speed: 32768,
            orbital_radius: 0,
            orbital_speed: 0,
            body_type: BodyType::Star,
            tilt: 0,
        }
    }

    /// A planet on a circular orbit, starting on the x axis.
    pub fn new_planet(
        name: &str,
        orbital_radius: i64,
        orbital_speed: i64,
        radius: i64,
        color: u32,
    ) -> (r: CelestialBody)
        ensures
            r.name@ == name@,
            r.position == (Vec3 { x: orbital_radius, y: 0i64, z: 0i64 }),
            r.velocity == (Vec3 { x: 0i64, y: 0i64, z: 0i64 }),
            r.radius == radius,
            r.mass == 1000000000000000000000000u128,
            r.color == color,
            r.rotation_angle == 0,
            r.rotation_speed == 65536,
            r.orbital_radius == orbital_radius,
            r.orbital_speed == orbital_speed,
            r.body_type == BodyType::Planet,
            r.tilt == 0,
    {
        CelestialBody {
            name: name.to_string(),
            position: Vec3 { x: orbital_radius, y: 0, z: 0 },
            velocity: Vec3::zero(),
            radius,
            mass: 1000000000000000000000000u128,
            color,
            rotation_angle: 0,
            rotation_speed: 65536,
            orbital_radius,
            orbital_speed,
            body_type: BodyType::Planet,
            tilt: 0,
        }
    }

    /// A moon: like a planet, but lighter and slower spinning.
    pub fn new_moon(
        name: &str,
        orbital_radius: i64,
        orbital_speed: i64,
        radius: i64,
        color: u32,
    ) -> (r: CelestialBody)
        ensures
            r.name@ == name@,
            r.position == (Vec3 { x: orbital_radius, y: 0i64, z: 0i64 }),
            r.velocity == (Vec3 { x: 0i64, y: 0i64, z: 0i64 }),
            r.radius == radius,
            r.mass == 100000000000000000000u128,
            r.color == color,
            r.rotation_angle == 0,
            r.rotation_speed == 32768,
            r.orbital_radius == orbital_radius,
            r.orbital_speed == orbital_speed,
            r.body_type == BodyType::Moon,
            r.tilt == 0,
    {
        CelestialBody {
            name: name.to_string(),
            position: Vec3 { x: orbital_radius, y: 0, z: 0 },
            velocity: Vec3::zero(),
            radius,
            mass: 100000000000000000000u128,
            color,
            rotation_angle: 0,
            rotation_speed: 32768,
            orbital_radius,
            orbital_speed,
            body_type: BodyType::Moon,
            tilt: 0,
        }
    }

    /// Elapsed time back-derived from the rotation: the angle divided
    /// by the spin rate.  A zero spin rate has no defined age, so the
    /// contract excludes it.
    pub fn get_age(&self) -> (r: i64)
        requires
            self.rotation_speed != 0,
            -0x4000_0000_0000 <= self.rotation_angle <= 0x4000_0000_0000,
        ensures
            r == fxd(self.rotation_angle as int, self.rotation_speed as int),
    {
        fx_div(self.rotation_angle, self.rotation_speed)
    }

    /// Advances the spin by one time step, wrapping it into a whole
    /// turn, and moves an orbiting body along its circle around the
    /// parent position.
    pub fn update(&mut self, dt: i64, parent_pos: Vec3)
        requires
            0 <= old(self).rotation_angle < 411774,
            fits_point(old(self).rotation_speed as int),
            fits_point(old(self).orbital_speed as int),
            fits_point(old(self).orbital_radius as int),
            fits_point(dt as int),
            fits_point(parent_pos.x as int),
            fits_point(parent_pos.y as int),
            fits_point(parent_pos.z as int),
            old(self).orbital_radius > 0 ==> old(self).rotation_speed != 0,
        ensures
            final(self).rotation_angle == (old(self).rotation_angle + fxm(
                old(self).rotation_speed as int,
                dt as int,
            )) % 411774,
            0 <= final(self).rotation_angle < 411774,
            old(self).orbital_radius <= 0 ==> final(self).position == old(self).position,
            old(self).orbital_radius > 0 ==> ({
                let angle = fxm(
                    old(self).orbital_speed as int,
                    fxd(final(self).rotation_angle as int, old(self).rotation_speed as int),
                );
                final(self).position.x == parent_pos.x + fxm(
                    old(self).orbital_radius as int,
                    cos_fx(reduce_spec(angle)),
                ) && final(self).position.y == parent_pos.y && final(self).position.z
                    == parent_pos.z + fxm(
                    old(self).orbital_radius as int,
                    sin_fx(reduce_spec(angle)),
                )
            }),
            final(self).velocity == old(self).velocity,
            final(self).radius == old(self).radius,
            final(self).mass == old(self).mass,
            final(self).color == old(self).color,
            final(self).rotation_speed == old(self).rotation_speed,
            final(self).orbital_radius == old(self).orbital_radius,
            final(self).orbital_speed == old(self).orbital_speed,
            final(self).body_type == old(self).body_type,
            final(self).tilt == old(self).tilt,
    {
        proof {
            lemma_fxm_bound(self.rotation_speed as int, dt as int, 0x4000_0000, 0x4000_0000);
            lemma_mod_bound(
                self.rotation_angle + fxm(self.rotation_speed as int, dt as int),
                411774,
            );
        }
        let stepped: i64 = self.rotation_angle + fx_mul(self.rotation_speed, dt);
        self.rotation_angle = stepped.checked_rem_euclid(411774).unwrap();
        if self.orbital_radius > 0 {
            let age = fx_div(self.rotation_angle, self.rotation_speed);
            proof {
                lemma_fxd_bound(self.rotation_angle as int, self.rotation_speed as int);
                lemma_fxm_bound(self.orbital_speed as int, age as int, 0x4000_0000, 0x8_0000_0000);
            }
            let angle = fx_mul(self.orbital_speed, age);
            let ra = reduce_angle(angle);
            let c = fx_cos(ra);
            let s = fx_sin(ra);
            proof {
                lemma_fxm_bound(self.orbital_radius as int, c as int, 0x4000_0000, 131072);
                lemma_fxm_bound(self.orbital_radius as int, s as int, 0x4000_0000, 131072);
            }
            let x = parent_pos.x + fx_mul(self.orbital_radius, c);
            let y = parent_pos.y;
            let z = parent_pos.z + fx_mul(self.orbital_radius, s);
            self.position = Vec3 { x, y, z };
        }
    }

    /// The body's model transform: translation to its position composed
    /// with its spin (y rotation by the angle, x rotation by the tilt).
    pub fn get_transform_matrix(&self) -> (r: Mat4)
        requires
            fits_coord(self.position.x as int),
            fits_coord(self.position.y as int),
            fits_coord(self.position.z as int),
            -0x4000_0000_0000_0000 <= self.rotation_angle <= 0x4000_0000_0000_0000,
            -0x4000_0000_0000_0000 <= self.tilt <= 0x4000_0000_0000_0000,
        ensures
            forall|i: int, j: int|
                0 <= i < 4 && 0 <= j < 4 ==> #[trigger] ent(r, i, j) == body_transform_ent(
                    self.position,
                    self.rotation_angle as int,
                    self.tilt as int,
                    i,
                    j,
                ),
    {
        let translation = Mat4::translation(self.position.x, self.position.y, self.position.z);
        let rotation_y = Mat4::rotation_y(self.rotation_angle);
        let rotation_x = Mat4::rotation_x(self.tilt);
        let rotation = rotation_y.multiply(&rotation_x);
        proof {
            assert forall|i: int, j: int| 0 <= i < 4 && 0 <= j < 4 implies fits_coord(
                #[trigger] ent(rotation, i, j)) by {
                lemma_fxm_bound(ent(rotation_y, i, 0), ent(rotation_x, 0, j), 131072, 131072);
                lemma_fxm_bound(ent(rotation_y, i, 1), ent(rotation_x, 1, j), 131072, 131072);
                lemma_fxm_bound(ent(rotation_y, i, 2), ent(rotation_x, 2, j), 131072, 131072);
                lemma_fxm_bound(ent(rotation_y, i, 3), ent(rotation_x, 3, j), 131072, 131072);
            }
        }
        translation.multiply(&rotation)
    }

    /// Whether a world point lies on or inside the body's sphere.
    pub fn contains_point(&self, point: &Vec3) -> (r: bool)
        requires
            bounded3(self.position),
            bounded3(*point),
        ensures
            r == (mag3_spec(
                Vec3 {
                    x: (self.position.x - point.x) as i64,
                    y: (self.position.y - point.y) as i64,
                    z: (self.position.z - point.z) as i64,
                },
            ) <= self.radius),
    {
        let distance = self.position.distance_to(point);
        distance <= self.radius
    }
}

} // verus!
verus! {

/// One color channel of the HSV conversion, before the value offset:
/// the chroma, the ramp, or zero, picked by the hue sector.
pub open spec fn hsv_channels(h: int, s: int, v: int) -> (int, int, int) {
    let c = fxm(v, s);
    let ramp = fxm(c, 65536 - fx_abs(fxd(h, 3932160) % 131072 - 65536));
    if h < 3932160 {
        (c, ramp, 0int)
    } else if h < 7864320 {
        (ramp, c, 0int)
    } else if h < 11796480 {
        (0int, c, ramp)
    } else if h < 15728640 {
        (0int, ramp, c)
    } else if h < 19660800 {
        (ramp, 0int, c)
    } else {
        (c, 0int, ramp)
    }
}

/// The packed RGBA color of an HSV triple: channels offset by the
/// value minus chroma, scaled to bytes, alpha opaque.
pub open spec fn hsv_to_rgb_spec(h: int, s: int, v: int) -> u32 {
    let c = fxm(v, s);
    let m = v - c;
    let (r0, g0, b0) = hsv_channels(h, s, v);
    let rr = fxm(r0 + m, 255) as u32;
    let gg = fxm(g0 + m, 255) as u32;
    let bb = fxm(b0 + m, 255) as u32;
    (rr << 24) | (gg << 16) | (bb << 8) | 255u32
}

/// Generates a packed color from hue (fixed-point degrees), saturation
/// and value (fixed-point fractions of one).  Hues below zero or at or
/// beyond 300 degrees fall into the first or final sector, exactly as
/// the comparison chain reads; the ramp position comes from the hue
/// divided by sixty degrees, reduced modulo two.
pub fn hsv_to_rgb(h: i64, s: i64, v: i64) -> (r: u32)
    requires
        -0x4000_0000_0000 <= h <= 0x4000_0000_0000,
        0 <= s <= 65536,
        0 <= v <= 65536,
    ensures
        r == hsv_to_rgb_spec(h as int, s as int, v as int),
{
    proof {
        lemma_channel_ranges(h as int, s as int, v as int);
        lemma_mod_bound(fxd(h as int, 3932160), 131072);
    }
    let c: i64 = fx_mul(v, s);
    let hp: i64 = fx_div(h, 3932160);
    let hm: i64 = hp.checked_rem_euclid(131072).unwrap();
    let t: i64 = hm - 65536;
    let ta: i64 = if t < 0 {
        -t
    } else {
        t
    };
    let x: i64 = fx_mul(c, 65536 - ta);
    let m: i64 = v - c;
    let (r0, g0, b0): (i64, i64, i64) = if h < 3932160 {
        (c, x, 0)
    } else if h < 7864320 {
        (x, c, 0)
    } else if h < 11796480 {
        (0, c, x)
    } else if h < 15728640 {
        (0, x, c)
    } else if h < 19660800 {
        (x, 0, c)
    } else {
        (c, 0, x)
    };
    let rr: u32 = fx_mul(r0 + m, 255) as u32;
    let gg: u32 = fx_mul(g0 + m, 255) as u32;
    let bb: u32 = fx_mul(b0 + m, 255) as u32;
    (rr << 24) | (gg << 16) | (bb << 8) | 255u32
}

/// The chroma and ramp of the HSV conversion are channel fractions: at
/// least zero and at most the value, so the byte scaling stays within
/// one byte.
proof fn lemma_channel_ranges(h: int, s: int, v: int)
    requires
        0 <= s <= 65536,
        0 <= v <= 65536,
    ensures
        0 <= fxm(v, s) <= v,
        ({
            let c = fxm(v, s);
            let ramp = fxm(c, 65536 - fx_abs(fxd(h, 3932160) % 131072 - 65536));
            0 <= ramp <= c
        }),
        forall|q: int|
            0 <= q <= fxm(v, s) ==> 0 <= #[trigger] fxm(q + (v - fxm(v, s)), 255) <= 255,
{
    let c = fxm(v, s);
    assert(0 <= v * s <= v * 65536) by (nonlinear_arith)
        requires
            0 <= s <= 65536,
            0 <= v,
    ;
    vstd::arithmetic::div_mod::lemma_div_is_ordered(0, v * s, 65536);
    vstd::arithmetic::div_mod::lemma_div_is_ordered(v * s, v * 65536, 65536);
    vstd::arithmetic::div_mod::lemma_div_multiples_vanish(v, 65536);
    assert(v * 65536 == 65536 * v) by (nonlinear_arith);
    let hm = fxd(h, 3932160) % 131072;
    lemma_mod_bound(fxd(h, 3932160), 131072);
    let w = 65536 - fx_abs(hm - 65536);
    assert(0 <= w <= 65536);
    assert(0 <= c * w <= c * 65536) by (nonlinear_arith)
        requires
            0 <= w <= 65536,
            0 <= c,
    ;
    vstd::arithmetic::div_mod::lemma_div_is_ordered(0, c * w, 65536);
    vstd::arithmetic::div_mod::lemma_div_is_ordered(c * w, c * 65536, 65536);
    vstd::arithmetic::div_mod::lemma_div_multiples_vanish(c, 65536);
    assert(c * 65536 == 65536 * c) by (nonlinear_arith);
    assert forall|q: int| 0 <= q <= c implies 0 <= #[trigger] fxm(q + (v - c), 255) <= 255 by {
        let u = q + (v - c);
        assert(0 <= u <= 65536);
        assert(0 <= u * 255 <= 65536int * 255) by (nonlinear_arith)
            requires
                0 <= u <= 65536,
        ;
        vstd::arithmetic::div_mod::lemma_div_is_ordered(0, u * 255, 65536);
        vstd::arithmetic::div_mod::lemma_div_is_ordered(u * 255, 65536int * 255, 65536);
        vstd::arithmetic::div_mod::lemma_div_multiples_vanish(255, 65536);
    }
}

} // verus!
