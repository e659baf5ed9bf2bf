use solar_renderer::math::Vec3;
use solar_renderer::scene::{BodyType, CelestialBody, hsv_to_rgb};
use solar_renderer::physics::is_collision;

const ONE: i64 = 65536;

#[test]
fn star_defaults() {
    let s = CelestialBody::new_star("sol", Vec3::zero(), 20 * ONE, 0xFFDD00FF);
    assert_eq!(s.name, "sol");
    assert_eq!(s.body_type, BodyType::Star);
    assert_eq!(s.mass, 1000000000000000000000000000000u128);
    assert_eq!(s.radius, 20 * ONE);
    assert_eq!(s.rotation_speed, ONE / 2);
    assert_eq!(s.orbital_radius, 0);
}

#[test]
fn planet_and_moon_defaults() {
    let p = CelestialBody::new_planet("terra", 160 * ONE, ONE / 5, 9 * ONE, 0x1080FFFF);
    assert_eq!(p.body_type, BodyType::Planet);
    assert_eq!(p.position.x, 160 * ONE);
    assert_eq!(p.mass, 1000000000000000000000000u128);
    assert_eq!(p.rotation_speed, ONE);
    let m = CelestialBody::new_moon("luna", 20 * ONE, ONE, 2 * ONE, 0xCCCCCCFF);
    assert_eq!(m.body_type, BodyType::Moon);
    assert_eq!(m.mass, 100000000000000000000u128);
}

#[test]
fn update_advances_rotation() {
    let mut s = CelestialBody::new_star("sol", Vec3::zero(), 20 * ONE, 0xFFDD00FF);
    s.update(ONE, Vec3::zero());
    // Half a radian per second for one second.
    assert_eq!(s.rotation_angle, ONE / 2);
    assert_eq!(s.position.x, 0);
}

#[test]
fn update_orbits_around_parent() {
    let mut p = CelestialBody::new_planet("terra", 100 * ONE, 0, 9 * ONE, 0x1080FFFF);
    // Zero orbital speed: the orbit angle stays zero, so the body sits
    // at parent + (radius, 0, 0) whatever the spin does.
    let parent = Vec3::new(7 * ONE, ONE, -2 * ONE);
    p.update(ONE / 4, parent);
    assert!((p.position.x - 107 * ONE).abs() <= 200, "x {}", p.position.x);
    assert_eq!(p.position.y, ONE);
    assert!((p.position.z + 2 * ONE).abs() <= 200, "z {}", p.position.z);
}

#[test]
fn get_age_divides_angle_by_speed() {
    let mut s = CelestialBody::new_star("sol", Vec3::zero(), 20 * ONE, 0xFFDD00FF);
    s.rotation_angle = ONE / 2;
    assert_eq!(s.get_age(), ONE);
}

#[test]
fn transform_matrix_places_body() {
    let mut s = CelestialBody::new_star("sol", Vec3::new(3 * ONE, 4 * ONE, 5 * ONE), ONE, 0);
    s.rotation_angle = 0;
    s.tilt = 0;
    let m = s.get_transform_matrix();
    assert_eq!(m.data[0][3], 3 * ONE);
    assert_eq!(m.data[1][3], 4 * ONE);
    assert_eq!(m.data[2][3], 5 * ONE);
    assert_eq!(m.data[3][3], ONE);
    // Zero spin and tilt leave the upper block near the identity.
    assert!((m.data[0][0] - ONE).abs() <= 700);
    assert!((m.data[1][1] - ONE).abs() <= 700);
    assert!((m.data[2][2] - ONE).abs() <= 700);
}

#[test]
fn contains_point_on_boundary() {
    let s = CelestialBody::new_star("sol", Vec3::zero(), 5 * ONE, 0);
    assert!(s.contains_point(&Vec3::new(3 * ONE, 4 * ONE, 0)));
    assert!(!s.contains_point(&Vec3::new(4 * ONE, 4 * ONE, 0)));
}

#[test]
fn collision_touching_spheres() {
    let a = Vec3::zero();
    let b = Vec3::new(10 * ONE, 0, 0);
    assert!(is_collision(&a, 5 * ONE, &b, 5 * ONE));
    assert!(!is_collision(&a, 4 * ONE, &b, 5 * ONE));
    assert!(is_collision(&a, 6 * ONE, &b, 5 * ONE));
}

#[test]
fn hsv_primary_colors() {
    assert_eq!(hsv_to_rgb(0, ONE, ONE), 0xFF0000FF);
    assert_eq!(hsv_to_rgb(120 * ONE, ONE, ONE), 0x00FF00FF);
    assert_eq!(hsv_to_rgb(240 * ONE, ONE, ONE), 0x0000FFFF);
}

#[test]
fn hsv_greys_and_black() {
    // Zero saturation gives grey from the value alone.
    assert_eq!(hsv_to_rgb(0, 0, ONE), 0xFFFFFFFF);
    assert_eq!(hsv_to_rgb(90 * ONE, ONE, 0), 0x000000FF);
}

#[test]
fn hsv_beyond_one_turn_uses_final_sector() {
    // Hues at or past 300 degrees take the final sector of the
    // comparison chain, however large: one full turn lands on red and
    // 420 degrees on magenta.
    assert_eq!(hsv_to_rgb(360 * ONE, ONE, ONE), 0xFF0000FF);
    assert_eq!(hsv_to_rgb(420 * ONE, ONE, ONE), 0xFF00FFFF);
}
