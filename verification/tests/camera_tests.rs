use solar_renderer::math::Vec3;
use solar_renderer::camera::Camera;
use solar_renderer::fx::FX_PITCH_LIMIT;

const ONE: i64 = 65536;

#[test]
fn camera_new_defaults() {
    let c = Camera::new(Vec3::new(0, 0, 10 * ONE), Vec3::zero());
    assert_eq!(c.up.y, ONE);
    assert_eq!(c.yaw, 0);
    assert_eq!(c.pitch, 0);
    assert_eq!(c.roll, 0);
    assert_eq!(c.fov, 45 * ONE);
    assert_eq!(c.near_plane, 6554);
    assert_eq!(c.far_plane, 10000 * ONE);
}

#[test]
fn camera_looking_down_z() {
    // A camera at (0, 0, 10) aimed at the origin looks down minus z.
    let mut c = Camera::new(Vec3::new(0, 0, 10 * ONE), Vec3::zero());
    c.look_at(Vec3::zero());
    let f = c.get_forward();
    assert!(f.x.abs() <= 700, "forward x {}", f.x);
    assert!(f.y.abs() <= 700, "forward y {}", f.y);
    assert!((f.z + ONE).abs() <= 700, "forward z {}", f.z);
}

#[test]
fn camera_view_matrix_maps_origin() {
    // The world origin lands ten units down the view axis.
    let mut c = Camera::new(Vec3::new(0, 0, 10 * ONE), Vec3::zero());
    c.look_at(Vec3::zero());
    let view = c.get_view_matrix();
    let p = view.transform_point(&Vec3::zero());
    assert!(p.x.abs() <= 700, "view x {}", p.x);
    assert!(p.y.abs() <= 700, "view y {}", p.y);
    assert!((p.z + 10 * ONE).abs() <= 7000, "view z {}", p.z);
}

#[test]
fn camera_look_at_derives_pitch() {
    // An elevated target pitches the camera up: the arcsine of the
    // height ratio, far from the raw ratio itself.
    let mut c = Camera::new(Vec3::zero(), Vec3::new(10 * ONE, 0, 0));
    c.look_at(Vec3::new(0, 5 * ONE, 5 * ONE));
    // ratio = 5 / sqrt(50) ~ 0.7071; asin ~ 0.7854 rad.
    assert!((c.pitch - 51471).abs() <= 700, "pitch {}", c.pitch);
    // yaw = atan2(5, 0) = pi / 2.
    assert!((c.yaw - 102943).abs() <= 700, "yaw {}", c.yaw);
}

#[test]
fn camera_pitch_clamped_over_sequences() {
    // However the pitch is pushed, it stays strictly inside half pi.
    let limit: i64 = FX_PITCH_LIMIT;
    let mut c = Camera::new(Vec3::zero(), Vec3::new(ONE, 0, 0));
    c.rotate_pitch(50 * ONE);
    assert_eq!(c.pitch, limit);
    c.rotate_pitch(3);
    assert_eq!(c.pitch, limit);
    c.rotate_pitch(-300 * ONE);
    assert_eq!(c.pitch, -limit);
    c.rotate_pitch(ONE);
    assert_eq!(c.pitch, -limit + ONE);
    for _ in 0..100 {
        c.rotate_pitch(7777);
        assert!(-limit <= c.pitch && c.pitch <= limit);
    }
}

#[test]
fn camera_rotate_yaw_accumulates() {
    let mut c = Camera::new(Vec3::zero(), Vec3::new(ONE, 0, 0));
    c.rotate_yaw(1000);
    c.rotate_yaw(-250);
    assert_eq!(c.yaw, 750);
}

#[test]
fn camera_move_up_uses_world_up() {
    let mut c = Camera::new(Vec3::new(ONE, 2 * ONE, 3 * ONE), Vec3::zero());
    c.rotate_pitch(5000);
    c.move_up(4 * ONE);
    assert_eq!(c.position.y, 6 * ONE);
    assert_eq!(c.position.x, ONE);
    assert_eq!(c.position.z, 3 * ONE);
    assert_eq!(c.target.y, 4 * ONE);
}

#[test]
fn camera_move_forward_along_view() {
    let mut c = Camera::new(Vec3::zero(), Vec3::new(10 * ONE, 0, 0));
    // yaw 0, pitch 0: forward is about (+x).
    c.move_forward(2 * ONE);
    assert!((c.position.x - 2 * ONE).abs() <= 700, "x {}", c.position.x);
    assert!(c.position.y.abs() <= 700);
    assert!(c.position.z.abs() <= 700);
}

#[test]
fn camera_warp_to_re_aims() {
    let mut c = Camera::new(Vec3::new(0, 0, 10 * ONE), Vec3::zero());
    let target = Vec3::new(100 * ONE, 0, 10 * ONE);
    c.warp_to(target, 5 * ONE);
    // The camera sits five units back from the target along the line
    // from the old position, aimed at the target.
    assert_eq!(c.target.x, target.x);
    assert!((c.position.x - 95 * ONE).abs() <= 3, "x {}", c.position.x);
    assert!((c.position.z - 10 * ONE).abs() <= 3, "z {}", c.position.z);
    let f = c.get_forward();
    assert!((f.x - ONE).abs() <= 700);
}

#[test]
fn camera_projection_matrix_shape() {
    let c = Camera::new(Vec3::zero(), Vec3::new(ONE, 0, 0));
    let p = c.get_projection_matrix(1280, 720);
    // f = 1 / tan(22.5 degrees) ~ 2.4142; f / aspect = f * 9 / 16.
    assert!((p.data[1][1] - 158218).abs() <= 2000, "f {}", p.data[1][1]);
    assert!((p.data[0][0] - 88998).abs() <= 2000, "f/aspect {}", p.data[0][0]);
    assert_eq!(p.data[3][2], -ONE);
    assert_eq!(p.data[3][3], 0);
    // (far + near) / (near - far) ~ -1.
    assert!((p.data[2][2] + ONE).abs() <= 10, "m22 {}", p.data[2][2]);
}
