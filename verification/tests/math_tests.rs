use solar_renderer::math::{Vec3, Vec2, Mat4, Quaternion};
use solar_renderer::fx::{FX_ONE, FX_PI, FX_HALF_PI};

const ONE: i64 = FX_ONE;

#[test]
fn vec3_add_sub_exact() {
    let a = Vec3::new(ONE, 2 * ONE, 3 * ONE);
    let b = Vec3::new(4 * ONE, 5 * ONE, 6 * ONE);
    let s = a.add(&b);
    assert_eq!((s.x, s.y, s.z), (5 * ONE, 7 * ONE, 9 * ONE));
    let d = b.sub(&a);
    assert_eq!((d.x, d.y, d.z), (3 * ONE, 3 * ONE, 3 * ONE));
}

#[test]
fn vec3_magnitude_three_four_five() {
    let v = Vec3::new(3 * ONE, 4 * ONE, 0);
    assert_eq!(v.magnitude(), 5 * ONE);
}

#[test]
fn vec3_normalize_unit_magnitude() {
    // The magnitude of a normalized non-zero vector is one within
    // fixed-point rounding.
    let samples = [
        Vec3::new(3 * ONE, 4 * ONE, 0),
        Vec3::new(ONE, ONE, ONE),
        Vec3::new(-7 * ONE, 2 * ONE, 9 * ONE),
        Vec3::new(ONE / 2, ONE / 3, ONE / 4),
        Vec3::new(1000 * ONE, -2000 * ONE, 500 * ONE),
    ];
    for v in samples.iter() {
        let n = v.normalize();
        let m = n.magnitude();
        assert!((m - ONE).abs() <= 2, "magnitude {} out of tolerance", m);
    }
}

#[test]
fn vec3_normalize_zero_is_zero() {
    let z = Vec3::zero().normalize();
    assert_eq!((z.x, z.y, z.z), (0, 0, 0));
}

#[test]
fn vec3_cross_self_is_zero() {
    let samples = [
        Vec3::new(ONE, 2 * ONE, 3 * ONE),
        Vec3::new(-5 * ONE, 17, 123456),
        Vec3::new(0, 0, 9 * ONE),
    ];
    for v in samples.iter() {
        let c = v.cross(v);
        assert_eq!((c.x, c.y, c.z), (0, 0, 0));
    }
}

#[test]
fn vec3_cross_axes() {
    let x = Vec3::new(ONE, 0, 0);
    let y = Vec3::new(0, ONE, 0);
    let c = x.cross(&y);
    assert_eq!((c.x, c.y, c.z), (0, 0, ONE));
}

#[test]
fn vec3_dot_exact() {
    let a = Vec3::new(ONE, 2 * ONE, 3 * ONE);
    let b = Vec3::new(4 * ONE, -5 * ONE, 6 * ONE);
    assert_eq!(a.dot(&b), (4 - 10 + 18) * ONE);
}

#[test]
fn vec3_distance_exact() {
    let a = Vec3::new(ONE, 2 * ONE, 2 * ONE);
    let b = Vec3::zero();
    assert_eq!(a.distance_to(&b), 3 * ONE);
}

#[test]
fn vec3_scalar_ops() {
    let v = Vec3::new(2 * ONE, -4 * ONE, 6 * ONE);
    let m = v.mul_scalar(ONE / 2);
    assert_eq!((m.x, m.y, m.z), (ONE, -2 * ONE, 3 * ONE));
    let d = v.div_scalar(2 * ONE);
    assert_eq!((d.x, d.y, d.z), (ONE, -2 * ONE, 3 * ONE));
}

#[test]
fn vec2_ops() {
    let v = Vec2::new(3 * ONE, 4 * ONE);
    assert_eq!(v.magnitude(), 5 * ONE);
    let n = v.normalize();
    assert!((n.x - 39321).abs() <= 1);
    assert!((n.y - 52428).abs() <= 2);
    let z = Vec2::zero().normalize();
    assert_eq!((z.x, z.y), (0, 0));
    let s = v.add(&Vec2::new(ONE, ONE));
    assert_eq!((s.x, s.y), (4 * ONE, 5 * ONE));
}

#[test]
fn mat4_identity_multiply_left_and_right() {
    // Multiplying by the identity on either side returns the matrix.
    let mut m = Mat4::identity();
    m.data[0][3] = 7 * ONE;
    m.data[1][2] = -3 * ONE;
    m.data[2][0] = 12345;
    let l = Mat4::identity().multiply(&m);
    let r = m.multiply(&Mat4::identity());
    assert_eq!(l.data, m.data);
    assert_eq!(r.data, m.data);
}

#[test]
fn mat4_translation_composes() {
    let a = Mat4::translation(ONE, 2 * ONE, 3 * ONE);
    let b = Mat4::translation(10 * ONE, 20 * ONE, 30 * ONE);
    let c = a.multiply(&b);
    assert_eq!(c.data[0][3], 11 * ONE);
    assert_eq!(c.data[1][3], 22 * ONE);
    assert_eq!(c.data[2][3], 33 * ONE);
    assert_eq!(c.data[3][3], ONE);
}

#[test]
fn mat4_transform_point_identity() {
    // The identity transform returns the point unchanged.
    let p = Vec3::new(5 * ONE, -6 * ONE, 7 * ONE);
    let q = Mat4::identity().transform_point(&p);
    assert_eq!((q.x, q.y, q.z), (p.x, p.y, p.z));
}

#[test]
fn mat4_transform_point_divides_by_w() {
    let mut m = Mat4::identity();
    m.data[3][3] = 2 * ONE;
    let p = Vec3::new(4 * ONE, 6 * ONE, 8 * ONE);
    let q = m.transform_point(&p);
    assert_eq!((q.x, q.y, q.z), (2 * ONE, 3 * ONE, 4 * ONE));
}

#[test]
fn mat4_rotation_entries_quarter_turn() {
    // At a quarter turn the cosine entry collapses to about zero and
    // the sine entry to about one; a trig routine that returned its
    // argument unchanged would miss by far.
    let half_pi: i64 = FX_HALF_PI;
    let r = Mat4::rotation_x(half_pi);
    assert!(r.data[1][1].abs() <= 700, "cos {}", r.data[1][1]);
    assert!((r.data[2][1] - ONE).abs() <= 700, "sin {}", r.data[2][1]);
    assert_eq!(r.data[0][0], ONE);
    let ry = Mat4::rotation_y(half_pi);
    assert!(ry.data[0][0].abs() <= 700);
    assert!((ry.data[0][2] - ONE).abs() <= 700);
    let rz = Mat4::rotation_z(half_pi);
    assert!(rz.data[0][0].abs() <= 700);
    assert!((rz.data[1][0] - ONE).abs() <= 700);
}

#[test]
fn mat4_rotation_preserves_magnitude() {
    // Rotations are orthogonal within fixed-point tolerance: the
    // magnitude of a rotated point stays put.
    let angles: [i64; 4] = [20000, 102943, -60000, 300000];
    let p = Vec3::new(3 * ONE, 4 * ONE, 12 * ONE);
    let m0 = p.magnitude();
    for a in angles.iter() {
        for r in [Mat4::rotation_x(*a), Mat4::rotation_y(*a), Mat4::rotation_z(*a)].iter() {
            let q = r.transform_point(&p);
            let m1 = q.magnitude();
            assert!((m1 - m0).abs() <= 2000, "magnitude {} vs {}", m1, m0);
        }
    }
}

#[test]
fn quaternion_identity_matrix() {
    let q = Quaternion::identity();
    assert_eq!((q.x, q.y, q.z, q.w), (0, 0, 0, ONE));
    let m = q.to_matrix();
    assert_eq!(m.data, Mat4::identity().data);
}

#[test]
fn quaternion_from_axis_angle_half_turn() {
    // A half turn about z: the vector part is about (0, 0, 1) and the
    // scalar part about zero.
    let pi: i64 = FX_PI;
    let q = Quaternion::from_axis_angle(&Vec3::new(0, 0, 5 * ONE), pi);
    assert!(q.x.abs() <= 700);
    assert!(q.y.abs() <= 700);
    assert!((q.z - ONE).abs() <= 700);
    assert!(q.w.abs() <= 700);
}
