// Vectors, matrices, quaternions and the way from the world to the screen, on chosen
// values and against the same formulas in the machine's own arithmetic.

use tea_sir::camera::Camera;
use tea_sir::math::angle::{Angle, Rotation};
use tea_sir::math::mat::Mat4;
use tea_sir::math::quat::Quat;
use tea_sir::math::transform::{
    compute_model_matrix, compute_model_to_clip_matrix, compute_perspective_proj_matrix, compute_view_matrix,
    transform_vertex,
    triangle_world_to_camera_space_clipped, triangle_world_to_screen_space_clipped, vertex_camera_to_clip_space,
    vertex_camera_to_screen_space, vertex_world_to_camera_space, vertex_world_to_camera_space_clipped,
    vertex_world_to_screen_space, vertex_world_to_screen_space_clipped,
};
use tea_sir::math::vec::{DVec2, DVec3, Vec2, Vec3, Vec4};
use tea_sir::double::F64;
use tea_sir::single::F32;

fn num(x: f32) -> F32 {
    F32::from_bits(x.to_bits())
}

fn val(x: F32) -> f32 {
    f32::from_bits(x.to_bits())
}

fn v3(x: f32, y: f32, z: f32) -> Vec3 {
    Vec3::new(num(x), num(y), num(z))
}

fn v4(x: f32, y: f32, z: f32, w: f32) -> Vec4 {
    Vec4::new(num(x), num(y), num(z), num(w))
}

fn arr3(v: Vec3) -> [f32; 3] {
    [val(v.x), val(v.y), val(v.z)]
}

fn arr4(v: Vec4) -> [f32; 4] {
    [val(v.x), val(v.y), val(v.z), val(v.w)]
}

fn angle(radians: f32) -> Angle {
    let (s, c) = libm::sincosf(radians);
    Angle::new(num(radians), num(s), num(c))
}

fn camera(x: f32, y: f32, z: f32, pitch: f32, yaw: f32, fov: f32, nearz: f32, farz: f32) -> Camera {
    let mut c = Camera::default();
    c.translation = v3(x, y, z);
    c.pitch = num(pitch);
    c.yaw = num(yaw);
    c.fov = num(fov);
    c.nearz = num(nearz);
    c.farz = num(farz);
    set_trig(&mut c);
    c
}

// Takes the sines, cosines and tangent of the camera's angles and sets them.
fn set_trig(c: &mut Camera) {
    let radians = c.trig_radians();
    let sin_cos = radians.map(|a| {
        let (s, co) = libm::sincosf(val(a));
        (num(s), num(co))
    });
    c.set_trig(sin_cos, num(val(radians[3]).tan()));
    assert!(c.has_trig());
}

fn next(state: &mut u64) -> u64 {
    let mut x = *state;
    x ^= x << 13;
    x ^= x >> 7;
    x ^= x << 17;
    *state = x;
    x
}

// A number between -range and range.
fn rand(state: &mut u64, range: f32) -> f32 {
    let r = (next(state) >> 40) as f32 / (1u64 << 24) as f32;
    (r * 2.0 - 1.0) * range
}

fn close(a: f32, b: f32, eps: f32) -> bool {
    (a - b).abs() <= eps * (1.0 + a.abs().max(b.abs()))
}

#[test]
fn vector_arithmetic_is_componentwise() {
    let a = v3(1.0, 2.0, 3.0);
    let b = v3(4.0, -5.0, 0.5);
    assert_eq!(arr3(a.add(b)), [5.0, -3.0, 3.5]);
    assert_eq!(arr3(a.sub(b)), [-3.0, 7.0, 2.5]);
    assert_eq!(arr3(a.mul(b)), [4.0, -10.0, 1.5]);
    assert_eq!(arr3(a.div(b)), [0.25, -0.4, 6.0]);
    assert_eq!(arr3(a.add_scalar(num(1.0))), [2.0, 3.0, 4.0]);
    assert_eq!(arr3(a.sub_scalar(num(1.0))), [0.0, 1.0, 2.0]);
    assert_eq!(arr3(a.mul_scalar(num(2.0))), [2.0, 4.0, 6.0]);
    assert_eq!(arr3(a.div_scalar(num(2.0))), [0.5, 1.0, 1.5]);
    assert_eq!(arr3(a.neg()), [-1.0, -2.0, -3.0]);
    assert_eq!(val(a.dot(b)), 1.0 * 4.0 + 2.0 * -5.0 + 3.0 * 0.5);
    assert_eq!(arr3(a.cross(b)), [2.0 * 0.5 - -5.0 * 3.0, 3.0 * 4.0 - 0.5 * 1.0, 1.0 * -5.0 - 4.0 * 2.0]);
    assert_eq!(val(a.length_squared()), 14.0);
    assert_eq!(val(a.length()), 14.0f32.sqrt());
    assert_eq!(val(a.element_sum()), 6.0);
    assert_eq!(val(a.distance_squared(b)), 9.0 + 49.0 + 6.25);
    assert_eq!(val(a.distance(b)), (9.0f32 + 49.0 + 6.25).sqrt());
    assert_eq!(arr3(Vec3::splat(num(7.0))), [7.0, 7.0, 7.0]);
    assert_eq!(arr3(Vec3::x(num(7.0))), [7.0, 0.0, 0.0]);
    assert_eq!(arr3(Vec3::y(num(7.0))), [0.0, 7.0, 0.0]);
    assert_eq!(arr3(Vec3::z(num(7.0))), [0.0, 0.0, 7.0]);
    assert_eq!(arr4(a.extend(num(9.0))), [1.0, 2.0, 3.0, 9.0]);
    assert_eq!(arr3(v4(1.0, 2.0, 3.0, 4.0).reduce()), [1.0, 2.0, 3.0]);
    let r = a.reduce();
    assert_eq!([val(r.x), val(r.y)], [1.0, 2.0]);
    let t = a.to_array();
    assert_eq!([val(t[0]), val(t[1]), val(t[2])], [1.0, 2.0, 3.0]);
    assert_eq!(val(v4(1.0, 2.0, 3.0, 4.0).dot(v4(5.0, 6.0, 7.0, 8.0))), 70.0);
    assert_eq!(arr4(Vec4::w(num(1.0))), [0.0, 0.0, 0.0, 1.0]);
    let p = Vec2::new(num(3.0), num(4.0));
    assert_eq!(val(p.length()), 5.0);
    assert_eq!(val(p.cross(Vec2::new(num(1.0), num(2.0)))), 2.0);
    assert_eq!(arr3(p.extend(num(5.0))), [3.0, 4.0, 5.0]);
}

#[test]
fn vectors_are_equal_as_numbers_are() {
    assert!(v3(0.0, 1.0, 2.0) == v3(-0.0, 1.0, 2.0));
    assert!(v3(0.0, 1.0, 2.0) != v3(0.0, 1.0, 2.5));
    assert!(v3(f32::NAN, 1.0, 2.0) != v3(f32::NAN, 1.0, 2.0));
    assert!(Vec3::default() == Vec3::zero());
    assert!(Mat4::default() == Mat4::identity());
    assert!(Quat::default() == Quat::identity());
}

#[test]
fn division_by_a_zero_vector_gives_infinities_and_nans() {
    let q = v3(1.0, -1.0, 0.0).div(Vec3::zero());
    assert_eq!(val(q.x), f32::INFINITY);
    assert_eq!(val(q.y), f32::NEG_INFINITY);
    assert!(val(q.z).is_nan());
}

#[test]
fn normalize_gives_length_one() {
    let mut state = 0x5555_aaaa_1234_4321u64;
    for _ in 0..20_000 {
        let v = v3(rand(&mut state, 100.0), rand(&mut state, 100.0), rand(&mut state, 100.0));
        if val(v.length()) == 0.0 {
            continue;
        }
        let n = v.normalize_or_zero();
        assert!(close(val(n.length()), 1.0, 1e-6));
        let (x, y, z) = (val(v.x), val(v.y), val(v.z));
        let len = libm::sqrtf(x * x + y * y + z * z);
        assert_eq!(arr3(n), [x / len, y / len, z / len]);
        let p = Vec2::new(v.x, v.y);
        if val(p.length()) != 0.0 {
            assert!(close(val(p.normalize_or_zero().length()), 1.0, 1e-6));
        }
    }
    assert_eq!(arr3(v3(3.0, 0.0, 4.0).normalize()), [0.6, 0.0, 0.8]);
    assert_eq!(arr3(Vec3::zero().normalize_or_zero()), [0.0, 0.0, 0.0]);
    let z = Vec2::zero().normalize_or_zero();
    assert_eq!([val(z.x), val(z.y)], [0.0, 0.0]);
}

#[test]
fn rotating_there_and_back_returns_the_vector() {
    let mut state = 0x0101_0202_0303_0404u64;
    for _ in 0..20_000 {
        let v = v3(rand(&mut state, 10.0), rand(&mut state, 10.0), rand(&mut state, 10.0));
        let theta = rand(&mut state, 6.5);
        let (there, back) = (angle(theta), angle(-theta));
        for r in [
            v.rotate_x(there).rotate_x(back),
            v.rotate_y(there).rotate_y(back),
            v.rotate_z(there).rotate_z(back),
        ] {
            for (a, b) in arr3(r).iter().zip(arr3(v).iter()) {
                assert!((a - b).abs() <= 1e-4, "{} {}", a, b);
            }
        }
    }
}

#[test]
fn rotations_follow_the_sign_pattern() {
    let quarter = Angle::new(num(std::f32::consts::FRAC_PI_2), num(1.0), num(0.0));
    // about y: x' = x cos + z sin, z' = -x sin + z cos
    assert_eq!(arr3(v3(1.0, 2.0, 3.0).rotate_y(quarter)), [3.0, 2.0, -1.0]);
    // about x: y' = y cos - z sin, z' = y sin + z cos
    assert_eq!(arr3(v3(1.0, 2.0, 3.0).rotate_x(quarter)), [1.0, -3.0, 2.0]);
    // about z: x' = x cos - y sin, y' = x sin + y cos
    assert_eq!(arr3(v3(1.0, 2.0, 3.0).rotate_z(quarter)), [-2.0, 1.0, 3.0]);
    let a = angle(0.7);
    let (s, c) = libm::sincosf(0.7);
    let (x, y, z) = (1.25f32, -2.5f32, 0.75f32);
    assert_eq!(arr3(v3(x, y, z).rotate_x(a)), [x, y * c - z * s, y * s + z * c]);
    assert_eq!(arr3(v3(x, y, z).rotate_y(a)), [x * c + z * s, y, -x * s + z * c]);
    assert_eq!(arr3(v3(x, y, z).rotate_z(a)), [x * c - y * s, x * s + y * c, z]);
}

#[test]
fn the_identity_quaternion_changes_nothing() {
    let mut state = 0x9999_8888_7777_6666u64;
    for _ in 0..5_000 {
        let q = Quat(v4(rand(&mut state, 2.0), rand(&mut state, 2.0), rand(&mut state, 2.0), rand(&mut state, 2.0)));
        assert!(Quat::identity().mul_quat(q) == q);
        assert!(q.mul_quat(Quat::identity()) == q);
    }
    assert_eq!(arr4(Quat::identity().0), [0.0, 0.0, 0.0, 1.0]);
    assert!(Quat::identity().compute_mat4() == Mat4::identity());
}

#[test]
fn the_hamilton_product_has_its_signs() {
    let i = Quat(v4(1.0, 0.0, 0.0, 0.0));
    let j = Quat(v4(0.0, 1.0, 0.0, 0.0));
    let k = Quat(v4(0.0, 0.0, 1.0, 0.0));
    assert_eq!(arr4(i.mul_quat(j).0), [0.0, 0.0, 1.0, 0.0]);
    assert_eq!(arr4(j.mul_quat(i).0), [0.0, 0.0, -1.0, 0.0]);
    assert_eq!(arr4(j.mul_quat(k).0), [1.0, 0.0, 0.0, 0.0]);
    assert_eq!(arr4(k.mul_quat(i).0), [0.0, 1.0, 0.0, 0.0]);
    assert_eq!(arr4(i.mul_quat(i).0), [0.0, 0.0, 0.0, -1.0]);
    let a = Quat(v4(1.0, 2.0, 3.0, 4.0));
    let b = Quat(v4(5.0, 6.0, 7.0, 8.0));
    assert_eq!(arr4(a.mul_quat(b).0), [24.0, 48.0, 48.0, -6.0]);
}

#[test]
fn a_quaternion_about_one_axis_turns_as_the_axis_rotation_does() {
    let mut state = 0x3141_5926_5358_9793u64;
    for _ in 0..5_000 {
        let theta = rand(&mut state, 3.0);
        let v = v3(rand(&mut state, 10.0), rand(&mut state, 10.0), rand(&mut state, 10.0));
        let half = angle(val(Quat::half_angle(num(theta))));
        assert_eq!(val(half.radians), theta * 0.5);
        let full = angle(theta);
        let cases = [
            (Quat::from_rotation_x(num(theta), half), v.rotate_x(full)),
            (Quat::from_rotation_y(num(theta), half), v.rotate_y(full)),
            (Quat::from_rotation_z(num(theta), half), v.rotate_z(full)),
        ];
        for (q, expected) in cases {
            let got = q.compute_mat4().mult_vec4(v.extend(num(1.0)));
            assert_eq!(val(got.w), 1.0);
            for (a, b) in arr3(got.reduce()).iter().zip(arr3(expected).iter()) {
                assert!((a - b).abs() <= 1e-4, "{} {}", a, b);
            }
        }
    }
    let half = angle(0.25);
    assert_eq!(arr4(Quat::from_rotation_x(num(0.5), half).0), [val(half.sin), 0.0, 0.0, val(half.cos)]);
    assert_eq!(arr4(Quat::from_rotation_y(num(0.5), half).0), [0.0, val(half.sin), 0.0, val(half.cos)]);
    assert_eq!(arr4(Quat::from_rotation_z(num(0.5), half).0), [0.0, 0.0, val(half.sin), val(half.cos)]);
}

#[test]
fn the_zero_quaternion_gives_the_identity_matrix_and_no_nan() {
    let m = Quat(v4(0.0, 0.0, 0.0, 0.0)).compute_mat4();
    assert!(m == Mat4::identity());
}

#[test]
fn the_identity_matrix_changes_no_vector() {
    let mut state = 0x2718_2818_2845_9045u64;
    for _ in 0..5_000 {
        let v = v4(rand(&mut state, 1e6), rand(&mut state, 1.0), rand(&mut state, 1e-6), rand(&mut state, 50.0));
        assert!(Mat4::identity().mult_vec4(v) == v);
    }
    // an infinite component is where this ends: zero times infinity is no number
    let r = Mat4::identity().mult_vec4(v4(f32::INFINITY, 0.0, 0.0, 0.0));
    assert!(val(r.y).is_nan());
}

fn rows(m: [[f32; 4]; 4]) -> Mat4 {
    Mat4 {
        r1: v4(m[0][0], m[0][1], m[0][2], m[0][3]),
        r2: v4(m[1][0], m[1][1], m[1][2], m[1][3]),
        r3: v4(m[2][0], m[2][1], m[2][2], m[2][3]),
        r4: v4(m[3][0], m[3][1], m[3][2], m[3][3]),
    }
}

#[test]
fn matrices_multiply_rows_into_columns() {
    let a = rows([[1.0, 2.0, 3.0, 4.0], [5.0, 6.0, 7.0, 8.0], [9.0, 10.0, 11.0, 12.0], [13.0, 14.0, 15.0, 16.0]]);
    let b = rows([[1.0, 0.0, 2.0, 0.0], [0.0, 1.0, 0.0, 3.0], [4.0, 0.0, 1.0, 0.0], [0.0, 5.0, 0.0, 1.0]]);
    // each component of matrix times vector is a row dotted with the vector
    assert_eq!(arr4(a.mult_vec4(v4(1.0, 0.0, 0.0, 0.0))), [1.0, 5.0, 9.0, 13.0]);
    assert_eq!(arr4(a.mult_vec4(v4(1.0, 2.0, 3.0, 4.0))), [30.0, 70.0, 110.0, 150.0]);
    let ab = a.mult_mat4(&b);
    assert_eq!(arr4(ab.r1), [13.0, 22.0, 5.0, 10.0]);
    assert_eq!(arr4(ab.r2), [33.0, 46.0, 17.0, 26.0]);
    assert_eq!(arr4(ab.r3), [53.0, 70.0, 29.0, 42.0]);
    assert_eq!(arr4(ab.r4), [73.0, 94.0, 41.0, 58.0]);
    let ba = b.mult_mat4(&a);
    assert_eq!(arr4(ba.r1), [19.0, 22.0, 25.0, 28.0]);
    assert!(ab != ba);
    let v = v4(1.0, -2.0, 3.0, 1.0);
    assert_eq!(arr4(ab.mult_vec4(v)), arr4(a.mult_vec4(b.mult_vec4(v))));
    let t = a.transpose();
    assert_eq!(arr4(t.r1), [1.0, 5.0, 9.0, 13.0]);
    assert_eq!(arr4(t.r4), [4.0, 8.0, 12.0, 16.0]);
    assert!(t.transpose() == a);
    assert!(Mat4::identity().mult_mat4(&a) == a);
    assert!(a.mult_mat4(&Mat4::identity()) == a);
}

#[test]
fn both_layouts_give_the_same_bits() {
    let mut state = 0x1111_2222_3333_4444u64;
    for _ in 0..5_000 {
        let mut m = [[0.0f32; 4]; 4];
        for row in m.iter_mut() {
            for e in row.iter_mut() {
                *e = rand(&mut state, 10.0);
            }
        }
        let v = v4(rand(&mut state, 10.0), rand(&mut state, 10.0), rand(&mut state, 10.0), rand(&mut state, 10.0));
        let by_rows = rows(m);
        let by_columns = tea_sir::math::cm::Mat4::from_rows(&by_rows);
        let a = by_rows.mult_vec4(v);
        let b = by_columns.mult_vec4(v);
        assert_eq!([a.x.to_bits(), a.y.to_bits(), a.z.to_bits(), a.w.to_bits()], [
            b.x.to_bits(),
            b.y.to_bits(),
            b.z.to_bits(),
            b.w.to_bits()
        ]);
        let g = glam::Mat4::from_cols_array_2d(&m).transpose().mul_vec4(glam::Vec4::new(
            val(v.x),
            val(v.y),
            val(v.z),
            val(v.w),
        ));
        assert_eq!(arr4(a), [g.x, g.y, g.z, g.w]);
        // the lanes are summed from the last column: x + (y + (z + w))
        let lanes = tea_sir::math::simd_cm::Mat4 {
            x_axis: by_columns.c1,
            y_axis: by_columns.c2,
            z_axis: by_columns.c3,
            w_axis: by_columns.c4,
        }
        .mult_vec4(v);
        let c = [by_columns.c1, by_columns.c2, by_columns.c3, by_columns.c4].map(arr4);
        let (x, y, z, w) = (val(v.x), val(v.y), val(v.z), val(v.w));
        for i in 0..4 {
            assert_eq!(arr4(lanes)[i], c[0][i] * x + (c[1][i] * y + (c[2][i] * z + c[3][i] * w)));
        }
    }
}

#[test]
fn the_model_matrix_scales_turns_and_moves() {
    let half = angle(0.4);
    let q = Quat::from_rotation_y(num(0.8), half);
    let m = compute_model_matrix(v3(10.0, 20.0, 30.0), q, v3(2.0, 3.0, 4.0));
    let r = q.compute_mat4();
    assert_eq!(arr4(m.r1), [val(r.r1.x) * 2.0, val(r.r1.y) * 3.0, val(r.r1.z) * 4.0, 10.0]);
    assert_eq!(arr4(m.r2), [val(r.r2.x) * 2.0, val(r.r2.y) * 3.0, val(r.r2.z) * 4.0, 20.0]);
    assert_eq!(arr4(m.r3), [val(r.r3.x) * 2.0, val(r.r3.y) * 3.0, val(r.r3.z) * 4.0, 30.0]);
    assert_eq!(arr4(m.r4), [0.0, 0.0, 0.0, 1.0]);
    // scale, then turn, then move
    let p = compute_model_matrix(v3(10.0, 20.0, 30.0), Quat::identity(), v3(2.0, 3.0, 4.0)).mult_vec4(v4(
        1.0, 1.0, 1.0, 1.0,
    ));
    assert_eq!(arr4(p), [12.0, 23.0, 34.0, 1.0]);
    let g = glam::Mat4::from_scale_rotation_translation(
        glam::Vec3::new(2.0, 3.0, 4.0),
        glam::Quat::from_xyzw(0.0, val(half.sin), 0.0, val(half.cos)),
        glam::Vec3::new(10.0, 20.0, 30.0),
    )
    .transpose()
    .to_cols_array_2d();
    for (row, expected) in [m.r1, m.r2, m.r3, m.r4].iter().zip(g.iter()) {
        for (a, b) in arr4(*row).iter().zip(expected.iter()) {
            assert!(close(*a, *b, 1e-6), "{} {}", a, b);
        }
    }
}

#[test]
fn the_view_matrix_is_made_of_the_three_axes() {
    let (yaw, pitch) = (angle(-0.3), angle(-0.2));
    let t = v3(1.0, 2.0, 3.0);
    let m = compute_view_matrix(t, yaw, pitch);
    let (ys, yc, ps, pc) = (val(yaw.sin), val(yaw.cos), val(pitch.sin), val(pitch.cos));
    let x = [yc, 0.0, ys];
    let y = [ys * ps, pc, -(yc * ps)];
    let z = [-(ys * pc), ps, yc * pc];
    let dot = |a: [f32; 3]| a[0] * 1.0 + a[1] * 2.0 + a[2] * 3.0;
    assert_eq!(arr4(m.r1), [x[0], x[1], x[2], -dot(x)]);
    assert_eq!(arr4(m.r2), [y[0], y[1], y[2], -dot(y)]);
    assert_eq!(arr4(m.r3), [z[0], z[1], z[2], -dot(z)]);
    assert_eq!(arr4(m.r4), [0.0, 0.0, 0.0, 1.0]);
}

#[test]
fn the_camera_looks_down_plus_z() {
    // a camera at (0, 0, -5) that is not turned: the origin lies 5 before it
    let cam = camera(0.0, 0.0, -5.0, 0.0, 0.0, 1.0, 0.1, 100.0);
    let m = compute_view_matrix(cam.translation, cam.trig.neg_yaw, cam.trig.neg_pitch);
    assert_eq!(arr4(m.r1), [1.0, 0.0, 0.0, 0.0]);
    assert_eq!(arr4(m.r2), [0.0, 1.0, 0.0, 0.0]);
    assert_eq!(arr4(m.r3), [0.0, 0.0, 1.0, 5.0]);
    assert_eq!(arr4(m.r4), [0.0, 0.0, 0.0, 1.0]);
    assert_eq!(val(m.r3.dot(v4(0.0, 0.0, 0.0, 1.0))), 5.0);
    assert_eq!(arr3(vertex_world_to_camera_space(&cam, v3(0.0, 0.0, 0.0))), [0.0, 0.0, 5.0]);
    let p = v3(1.5, -2.0, 7.0);
    let by_matrix = m.mult_vec4(p.extend(num(1.0)));
    assert_eq!(arr4(by_matrix), [1.5, -2.0, 12.0, 1.0]);
    assert_eq!(arr3(vertex_world_to_camera_space(&cam, p)), [1.5, -2.0, 12.0]);
}

#[test]
fn the_view_matrix_and_the_way_of_a_vertex_agree() {
    let mut state = 0x6b8b_4567_327b_23c6u64;
    for _ in 0..20_000 {
        let cam = camera(
            rand(&mut state, 50.0),
            rand(&mut state, 50.0),
            rand(&mut state, 50.0),
            rand(&mut state, 1.5),
            rand(&mut state, 3.1),
            1.0,
            0.1,
            1000.0,
        );
        let m = compute_view_matrix(cam.translation, cam.trig.neg_yaw, cam.trig.neg_pitch);
        let v = v3(rand(&mut state, 200.0), rand(&mut state, 200.0), rand(&mut state, 200.0));
        let by_matrix = m.mult_vec4(v.extend(num(1.0)));
        let direct = vertex_world_to_camera_space(&cam, v);
        assert_eq!(val(by_matrix.w), 1.0);
        for (a, b) in arr3(by_matrix.reduce()).iter().zip(arr3(direct).iter()) {
            assert!((a - b).abs() <= 2e-4, "{} {}", a, b);
        }
    }
    // a quarter turn to the right: what lay to the right lies ahead
    let quarter = std::f32::consts::FRAC_PI_2;
    let cam = camera(0.0, 0.0, 0.0, 0.0, quarter, 1.0, 0.1, 1000.0);
    let m = compute_view_matrix(cam.translation, cam.trig.neg_yaw, cam.trig.neg_pitch);
    let ahead = m.mult_vec4(v4(10.0, 0.0, 0.0, 1.0));
    assert!((val(ahead.z) - 10.0).abs() < 1e-5 && val(ahead.x).abs() < 1e-5);
    let direct = vertex_world_to_camera_space(&cam, v3(10.0, 0.0, 0.0));
    assert!((val(direct.z) - 10.0).abs() < 1e-5 && val(direct.x).abs() < 1e-5);
}

#[test]
fn the_sines_of_a_camera_are_set_by_its_angles() {
    let mut cam = camera(1.0, 2.0, 3.0, 0.25, -0.5, 1.2, 0.1, 100.0);
    let r = cam.trig_radians();
    assert_eq!([val(r[0]), val(r[1]), val(r[2]), val(r[3])], [-0.5, 0.5, -0.25, 0.6]);
    assert!(cam.has_trig());
    assert_eq!(val(cam.trig.neg_yaw.radians), 0.5);
    assert_eq!(val(cam.trig.neg_yaw.sin), libm::sincosf(0.5).0);
    assert_eq!(val(cam.trig.half_fov.cos), libm::sincosf(0.6).1);
    assert_eq!(val(cam.trig.half_fov_tan), 0.6f32.tan());
    // a turn leaves the sines behind, until they are set anew
    cam.yaw = num(0.75);
    assert!(!cam.has_trig());
    set_trig(&mut cam);
    assert!(cam.has_trig());
    assert_eq!(val(cam.trig.yaw.sin), libm::sincosf(0.75).0);
    assert!(Camera::default().has_trig());
}

#[test]
fn the_projection_takes_the_near_plane_to_depth_zero() {
    let cam = camera(0.0, 0.0, 0.0, 0.0, 0.0, 1.2, 0.1, 1000.0);
    let p = compute_perspective_proj_matrix(&cam, 640, 360);
    for (x, y) in [(0.0, 0.0), (3.0, -2.0), (-100.0, 55.5)] {
        let clip = p.mult_vec4(v4(x, y, -0.1, 1.0));
        assert_eq!(val(clip.z), 0.0);
        assert_eq!(val(clip.w), 0.1);
        assert_eq!(val(clip.z.div(clip.w)), 0.0);
        let far = p.mult_vec4(v4(x, y, -1000.0, 1.0));
        assert!((val(far.z.div(far.w)) - 1.0).abs() < 1e-6);
    }
}

#[test]
fn model_view_and_projection_make_one_matrix() {
    let cam = camera(1.0, 2.0, -6.0, 0.1, -0.2, 1.3, 0.1, 1000.0);
    let half = angle(val(Quat::half_angle(num(0.3))));
    let model = compute_model_matrix(v3(0.5, 0.0, 1.0), Quat::from_rotation_y(num(0.3), half), v3(1.0, 2.0, 1.0));
    let all = compute_model_to_clip_matrix(&cam, 640, 360, &model);
    let view = compute_view_matrix(cam.translation, cam.trig.neg_yaw, cam.trig.neg_pitch);
    let flipped = Mat4 { r3: v4(-val(view.r3.x), -val(view.r3.y), -val(view.r3.z), -val(view.r3.w)), ..view };
    let projection = compute_perspective_proj_matrix(&cam, 640, 360);
    assert!(all == projection.mult_mat4(&flipped.mult_mat4(&model)));
    // a vertex of the model lands where the way of a vertex takes it
    let v = v3(0.25, -0.5, 0.75);
    let world = model.mult_vec4(v.extend(num(1.0))).reduce();
    let clip = all.mult_vec4(v.extend(num(1.0)));
    let camera_space = vertex_world_to_camera_space(&cam, world);
    assert!((val(clip.w) - val(camera_space.z)).abs() < 1e-4);
    let direct = vertex_camera_to_clip_space(640, 360, &cam, camera_space);
    assert!((val(clip.x.div(clip.w)) - val(direct.x)).abs() < 1e-4);
    assert!((val(clip.y.div(clip.w)) - val(direct.y)).abs() < 1e-4);
    let depth = val(clip.z.div(clip.w));
    assert!(depth > 0.0 && depth < 1.0);
}

#[test]
fn the_projection_matrix_follows_its_formula() {
    let cam = camera(0.0, 0.0, 0.0, 0.0, 0.0, 1.2, 0.1, 1000.0);
    let m = compute_perspective_proj_matrix(&cam, 640, 360);
    let (s, c) = libm::sincosf(0.5 * 1.2);
    let h = c / s;
    let w = h * 360.0 / 640.0;
    let r = 1000.0f32 / (0.1 - 1000.0);
    assert_eq!(arr4(m.r1), [w, 0.0, 0.0, 0.0]);
    assert_eq!(arr4(m.r2), [0.0, h, 0.0, 0.0]);
    assert_eq!(arr4(m.r3), [0.0, 0.0, r, r * 0.1]);
    assert_eq!(arr4(m.r4), [0.0, 0.0, -1.0, 0.0]);
}

#[test]
fn a_vertex_is_turned_about_z_then_y_then_x_and_then_moved() {
    let rot = Rotation::new(angle(0.3), angle(-0.7), angle(1.1));
    let v = v3(1.0, 2.0, 3.0);
    let t = v3(10.0, 20.0, 30.0);
    let expected = v.rotate_z(rot.z).rotate_y(rot.y).rotate_x(rot.x).add(t);
    assert_eq!(arr3(transform_vertex(t, rot, v)), arr3(expected));
    // an angle of zero is skipped, whatever sine and cosine come with it
    let odd = Angle::new(num(0.0), num(0.5), num(0.5));
    assert_eq!(arr3(transform_vertex(t, Rotation::new(odd, odd, odd), v)), [11.0, 22.0, 33.0]);
    assert_eq!(arr3(transform_vertex(t, Rotation::zero(), v)), [11.0, 22.0, 33.0]);
}

fn native_screen(width: usize, height: usize, c: &[f32; 8], v: [f32; 3]) -> ([f32; 3], [f32; 3]) {
    // c: x, y, z, pitch, yaw, fov, nearz, farz
    let (ys, yc) = libm::sincosf(-c[4]);
    let (ps, pc) = libm::sincosf(-c[3]);
    let (x, y, z) = (v[0] - c[0], v[1] - c[1], v[2] - c[2]);
    let (x, y, z) = (x * yc + z * ys, y, -x * ys + z * yc);
    let (x, y, z) = (x, y * pc - z * ps, y * ps + z * pc);
    let fov_scale = 1.0 / (c[5] / 2.0).tan();
    let mut px = x * fov_scale / z;
    let py = y * fov_scale / z;
    px *= height as f32 / width as f32;
    ([x, y, z], [
        (px + 1.0) / 2.0 * width as f32,
        (1.0 - (py + 1.0) / 2.0) * height as f32,
        (z - c[6]) / c[7],
    ])
}

#[test]
fn the_way_to_the_screen_agrees_with_the_same_formulas_in_machine_arithmetic() {
    let mut state = 0xabcd_ef01_2345_6789u64;
    let (width, height) = (640usize, 360usize);
    for _ in 0..20_000 {
        let c = [
            rand(&mut state, 50.0),
            rand(&mut state, 50.0),
            rand(&mut state, 50.0),
            rand(&mut state, 1.5),
            rand(&mut state, 3.1),
            1.0 + rand(&mut state, 0.9),
            0.1,
            1000.0,
        ];
        let cam = camera(c[0], c[1], c[2], c[3], c[4], c[5], c[6], c[7]);
        let v = [rand(&mut state, 200.0), rand(&mut state, 200.0), rand(&mut state, 200.0)];
        let (cs, ss) = native_screen(width, height, &c, v);
        let w = v3(v[0], v[1], v[2]);
        let got = vertex_world_to_camera_space(&cam, w);
        assert_eq!(arr3(got).map(f32::to_bits), cs.map(f32::to_bits));
        let screen = vertex_world_to_screen_space(width, height, &cam, w);
        assert_eq!(arr3(screen).map(f32::to_bits), ss.map(f32::to_bits));
        assert_eq!(
            arr3(vertex_camera_to_screen_space(width, height, &cam, got)).map(f32::to_bits),
            ss.map(f32::to_bits)
        );
        let inside = cs[2] >= c[6] && cs[2] <= c[7];
        assert_eq!(vertex_world_to_camera_space_clipped(&cam, w).is_some(), inside);
        match vertex_world_to_screen_space_clipped(width, height, &cam, w) {
            Some(s) => {
                assert!(inside);
                assert_eq!(arr3(s).map(f32::to_bits), ss.map(f32::to_bits));
            }
            None => assert!(!inside),
        }
    }
}

#[test]
fn the_point_looked_at_lands_in_the_middle_of_the_screen() {
    // straight ahead of a camera that looks down +z, half way into the depth range
    let cam = camera(0.0, 0.0, -5.0, 0.0, 0.0, std::f32::consts::FRAC_PI_2, 0.1, 1000.0);
    let s = vertex_world_to_screen_space(640, 360, &cam, v3(0.0, 0.0, 495.0));
    assert_eq!(val(s.x), 320.0);
    assert_eq!(val(s.y), 180.0);
    assert_eq!(val(s.z), (500.0f32 - 0.1) / 1000.0);
    // and of a camera that is turned and raised
    let (yaw, pitch) = (0.6f32, -0.3f32);
    let cam = camera(3.0, 4.0, 5.0, pitch, yaw, 1.0, 0.1, 1000.0);
    // the camera's forward direction in the world
    let forward = v3(0.0, 0.0, 10.0).rotate_x(angle(pitch)).rotate_y(angle(yaw)).add(cam.translation);
    let s = vertex_world_to_screen_space(800, 600, &cam, forward);
    assert!((val(s.x) - 400.0).abs() < 1e-2, "{}", val(s.x));
    assert!((val(s.y) - 300.0).abs() < 1e-2, "{}", val(s.y));
}

#[test]
fn clip_space_scales_x_by_the_aspect() {
    let cam = camera(0.0, 0.0, 0.0, 0.0, 0.0, std::f32::consts::FRAC_PI_2, 0.1, 1000.0);
    let scale = 1.0 / (std::f32::consts::FRAC_PI_2 / 2.0).tan();
    let p = vertex_camera_to_clip_space(640, 360, &cam, v3(2.0, 1.0, 4.0));
    assert_eq!(val(p.x), 2.0 * scale / 4.0 * (360.0 / 640.0));
    assert_eq!(val(p.y), 1.0 * scale / 4.0);
}

#[test]
fn a_triangle_is_kept_whole_or_dropped_whole() {
    let cam = camera(0.0, 0.0, 0.0, 0.0, 0.0, std::f32::consts::FRAC_PI_2, 1.0, 10.0);
    let inside = [v3(0.0, 0.0, 1.0), v3(1.0, 0.0, 5.0), v3(0.0, 1.0, 10.0)];
    // the planes themselves count as inside
    let kept = triangle_world_to_camera_space_clipped(&cam, inside[0], inside[1], inside[2]);
    assert!(kept.is_some());
    let (a, b, c) = kept.unwrap();
    assert_eq!([arr3(a), arr3(b), arr3(c)], [[0.0, 0.0, 1.0], [1.0, 0.0, 5.0], [0.0, 1.0, 10.0]]);
    assert!(triangle_world_to_screen_space_clipped(640, 360, &cam, inside[0], inside[1], inside[2]).is_some());
    let near = v3(0.0, 0.0, 0.5);
    let far = v3(0.0, 0.0, 10.5);
    let behind = v3(0.0, 0.0, -3.0);
    for out in [near, far, behind, v3(0.0, 0.0, f32::NAN)] {
        assert!(triangle_world_to_camera_space_clipped(&cam, out, inside[1], inside[2]).is_none());
        assert!(triangle_world_to_camera_space_clipped(&cam, inside[0], out, inside[2]).is_none());
        assert!(triangle_world_to_camera_space_clipped(&cam, inside[0], inside[1], out).is_none());
        assert!(triangle_world_to_screen_space_clipped(640, 360, &cam, inside[0], inside[1], out).is_none());
        assert!(vertex_world_to_camera_space_clipped(&cam, out).is_none());
    }
}

#[test]
fn vectors_pass_between_the_precisions() {
    let v = v3(0.1, -2.5, 1.0e-40);
    let d = v.to_dvec3();
    assert_eq!(
        [d.x.to_bits(), d.y.to_bits(), d.z.to_bits()],
        [(0.1f32 as f64).to_bits(), (-2.5f64).to_bits(), (1.0e-40f32 as f64).to_bits()]
    );
    assert_eq!(arr3(d.to_vec3()), [0.1, -2.5, 1.0e-40]);
    let wide = DVec3::new(
        F64::from_bits(0.1f64.to_bits()),
        F64::from_bits(1.0e300f64.to_bits()),
        F64::from_bits((-1.0e-300f64).to_bits()),
    );
    let n = wide.to_vec3();
    assert_eq!(
        [n.x.to_bits(), n.y.to_bits(), n.z.to_bits()],
        [(0.1f64 as f32).to_bits(), f32::INFINITY.to_bits(), (-0.0f32).to_bits()]
    );
    let p = Vec2::new(num(1.5), num(-0.1)).to_dvec2();
    assert_eq!([p.x.to_bits(), p.y.to_bits()], [1.5f64.to_bits(), (-0.1f32 as f64).to_bits()]);
    let q = DVec2::new(F64::from_bits(0.3f64.to_bits()), F64::from_bits(16_777_217.0f64.to_bits())).to_vec2();
    assert_eq!([val(q.x), val(q.y)], [0.3f64 as f32, 16_777_216.0]);
}

fn wide(x: f64) -> F64 {
    F64::from_bits(x.to_bits())
}

fn dv3(x: f64, y: f64, z: f64) -> DVec3 {
    DVec3::new(wide(x), wide(y), wide(z))
}

fn darr3(v: DVec3) -> [f64; 3] {
    [f64::from_bits(v.x.to_bits()), f64::from_bits(v.y.to_bits()), f64::from_bits(v.z.to_bits())]
}

#[test]
fn binary64_vectors_do_what_binary32_vectors_do() {
    let a = dv3(1.0, 2.0, 3.0);
    let b = dv3(4.0, -5.0, 0.5);
    assert_eq!(darr3(a.add(b)), [5.0, -3.0, 3.5]);
    assert_eq!(darr3(a.sub(b)), [-3.0, 7.0, 2.5]);
    assert_eq!(darr3(a.mul(b)), [4.0, -10.0, 1.5]);
    assert_eq!(darr3(a.div(b)), [0.25, -0.4, 6.0]);
    assert_eq!(darr3(a.mul_scalar(wide(0.1))), [0.1, 2.0 * 0.1, 3.0 * 0.1]);
    assert_eq!(darr3(a.cross(b)), [2.0 * 0.5 - -5.0 * 3.0, 3.0 * 4.0 - 0.5 * 1.0, 1.0 * -5.0 - 4.0 * 2.0]);
    assert_eq!(f64::from_bits(a.dot(b).to_bits()), -4.5);
    assert_eq!(f64::from_bits(a.length().to_bits()), 14.0f64.sqrt());
    assert_eq!(f64::from_bits(a.distance(b).to_bits()), (9.0f64 + 49.0 + 6.25).sqrt());
    let len = 14.0f64.sqrt();
    assert_eq!(darr3(a.normalize()), [1.0 / len, 2.0 / len, 3.0 / len]);
    assert_eq!(darr3(DVec3::zero().normalize_or_zero()), [0.0, 0.0, 0.0]);
    assert_eq!(darr3(a.neg()), [-1.0, -2.0, -3.0]);
    let (s, c) = libm::sincos(0.7);
    let turn = tea_sir::math::angle::DAngle::new(wide(0.7), wide(s), wide(c));
    assert_eq!(darr3(a.rotate_x(turn)), [1.0, 2.0 * c - 3.0 * s, 2.0 * s + 3.0 * c]);
    assert_eq!(darr3(a.rotate_y(turn)), [1.0 * c + 3.0 * s, 2.0, -1.0 * s + 3.0 * c]);
    assert_eq!(darr3(a.rotate_z(turn)), [1.0 * c - 2.0 * s, 1.0 * s + 2.0 * c, 3.0]);
    assert!(a == dv3(1.0, 2.0, 3.0));
    assert!(a != b);
    let p = DVec2::new(wide(3.0), wide(4.0));
    assert_eq!(f64::from_bits(p.length().to_bits()), 5.0);
    assert_eq!(f64::from_bits(p.cross(DVec2::new(wide(1.0), wide(2.0))).to_bits()), 2.0);
    assert_eq!(darr3(p.extend(wide(5.0))), [3.0, 4.0, 5.0]);
    let r = a.reduce();
    assert_eq!([r.x.to_bits(), r.y.to_bits()], [1.0f64.to_bits(), 2.0f64.to_bits()]);
}

#[test]
fn operators_are_the_methods() {
    let a = v3(1.0, 2.0, 3.0);
    let b = v3(4.0, -5.0, 0.5);
    let s = num(2.0);
    assert_eq!(arr3(a + b), arr3(a.add(b)));
    assert_eq!(arr3(a - b), arr3(a.sub(b)));
    assert_eq!(arr3(a * b), arr3(a.mul(b)));
    assert_eq!(arr3(a / b), arr3(a.div(b)));
    assert_eq!(arr3(a + s), [3.0, 4.0, 5.0]);
    assert_eq!(arr3(a - s), [-1.0, 0.0, 1.0]);
    assert_eq!(arr3(a * s), [2.0, 4.0, 6.0]);
    assert_eq!(arr3(a / s), [0.5, 1.0, 1.5]);
    assert_eq!(arr3(-a), [-1.0, -2.0, -3.0]);
    assert_eq!(arr4(v4(1.0, 2.0, 3.0, 4.0) * s + v4(1.0, 1.0, 1.0, 1.0)), [3.0, 5.0, 7.0, 9.0]);
    let p = Vec2::new(num(1.0), num(2.0)) * s - Vec2::new(num(0.5), num(0.5));
    assert_eq!([val(p.x), val(p.y)], [1.5, 3.5]);
    assert_eq!(val(num(1.5) + num(2.0) * num(3.0) - num(1.0) / num(4.0)), 1.5 + 2.0 * 3.0 - 1.0 / 4.0);
    assert_eq!(val(-num(1.5)), -1.5);
    assert_eq!(val(num(7.5) % num(2.0)), 1.5);
    assert_eq!(darr3(dv3(1.0, 2.0, 3.0) * wide(0.5) + dv3(1.0, 1.0, 1.0)), [1.5, 2.0, 2.5]);
    assert_eq!(darr3(-dv3(1.0, 2.0, 3.0)), [-1.0, -2.0, -3.0]);
    assert_eq!(f64::from_bits((wide(1.0) / wide(3.0) - wide(0.25)).to_bits()), 1.0 / 3.0 - 0.25);
    // a quaternion reads as its four components
    let q = Quat(v4(1.0, 2.0, 3.0, 4.0));
    assert_eq!([val(q.x), val(q.y), val(q.z), val(q.w)], [1.0, 2.0, 3.0, 4.0]);
    assert_eq!(val(q.length_squared()), 30.0);
    let mut q = q;
    q.w = num(5.0);
    q.x += num(1.0);
    assert_eq!(arr4(q.0), [2.0, 2.0, 3.0, 5.0]);
}

#[test]
fn compound_operators_are_the_operators() {
    let mut a = v3(1.0, 2.0, 3.0);
    a += v3(1.0, 1.0, 1.0);
    a -= v3(0.5, 0.5, 0.5);
    a *= v3(2.0, 2.0, 2.0);
    a /= v3(1.0, 2.0, 4.0);
    assert_eq!(arr3(a), [3.0, 2.5, 1.75]);
    a += num(1.0);
    a -= num(0.5);
    a *= num(2.0);
    a /= num(4.0);
    assert_eq!(arr3(a), [1.75, 1.5, 1.125]);
    let mut b = v4(1.0, 2.0, 3.0, 4.0);
    b *= num(0.5);
    b += v4(1.0, 1.0, 1.0, 1.0);
    assert_eq!(arr4(b), [1.5, 2.0, 2.5, 3.0]);
    let mut x = num(10.0);
    x += num(2.0);
    x *= num(3.0);
    x -= num(1.0);
    x /= num(7.0);
    x %= num(3.0);
    assert_eq!(val(x), 2.0);
    let mut d = dv3(1.0, 2.0, 3.0);
    d *= wide(2.0);
    d -= dv3(1.0, 1.0, 1.0);
    assert_eq!(darr3(d), [1.0, 3.0, 5.0]);
    let mut w = wide(1.0);
    w /= wide(8.0);
    w += wide(1.0);
    assert_eq!(f64::from_bits(w.to_bits()), 1.125);
}

#[test]
fn the_matrix_of_a_quaternion_turns_by_the_sine_and_cosine_it_holds() {
    let mut state = 0x1618_0339_8874_9894u64;
    for _ in 0..5_000 {
        let theta = rand(&mut state, 3.0);
        let v = v3(rand(&mut state, 10.0), rand(&mut state, 10.0), rand(&mut state, 10.0));
        let half = angle(val(Quat::half_angle(num(theta))));
        let p = v.extend(num(1.0));
        // about x: the sine in row 3, column 2, the cosine in row 2, column 2
        let m = Quat::from_rotation_x(num(theta), half).compute_mat4();
        let got = m.mult_vec4(p);
        assert!(got.reduce() == v.rotate_x(Angle::new(num(theta), m.r3.y, m.r2.y)));
        assert_eq!(val(got.w), 1.0);
        assert!(m.r2.z == m.r3.y.neg() && m.r3.z == m.r2.y);
        // about y: the sine in row 1, column 3, the cosine in row 1, column 1
        let m = Quat::from_rotation_y(num(theta), half).compute_mat4();
        let got = m.mult_vec4(p);
        assert!(got.reduce() == v.rotate_y(Angle::new(num(theta), m.r1.z, m.r1.x)));
        assert_eq!(val(got.w), 1.0);
        assert!(m.r3.x == m.r1.z.neg() && m.r3.z == m.r1.x);
        // about z: the sine in row 2, column 1, the cosine in row 1, column 1
        let m = Quat::from_rotation_z(num(theta), half).compute_mat4();
        let got = m.mult_vec4(p);
        assert!(got.reduce() == v.rotate_z(Angle::new(num(theta), m.r2.x, m.r1.x)));
        assert_eq!(val(got.w), 1.0);
        assert!(m.r1.y == m.r2.x.neg() && m.r2.y == m.r1.x);
    }
}

#[test]
fn what_a_turned_camera_sees_on_its_axis_lands_in_the_middle() {
    // a quarter turn to the left, with the sine and the cosine of the quarter turn itself
    let mut cam = camera(3.0, 4.0, 5.0, 0.0, std::f32::consts::FRAC_PI_2, 1.0, 0.1, 1000.0);
    let half_fov = angle(0.5);
    cam.set_trig(
        [
            (num(1.0), num(0.0)),
            (num(-1.0), num(0.0)),
            (num(-0.0), num(1.0)),
            (half_fov.sin, half_fov.cos),
        ],
        num(0.5f32.tan()),
    );
    assert!(cam.has_trig());
    let ahead = v3(3.0 + 40.0, 4.0, 5.0);
    let c = vertex_world_to_camera_space(&cam, ahead);
    assert_eq!(arr3(c), [0.0, 0.0, 40.0]);
    let s = vertex_world_to_screen_space_clipped(800, 600, &cam, ahead).unwrap();
    assert_eq!(arr3(s), [400.0, 300.0, (40.0f32 - 0.1) / 1000.0]);
    // a camera that is not turned looks along z
    let cam = camera(3.0, 4.0, 5.0, 0.0, 0.0, 1.0, 0.1, 1000.0);
    let c = vertex_world_to_camera_space(&cam, v3(3.0, 4.0, 12.5));
    assert_eq!(arr3(c), [0.0, 0.0, 7.5]);
    let s = vertex_world_to_screen_space_clipped(800, 600, &cam, v3(3.0, 4.0, 12.5)).unwrap();
    assert_eq!(arr3(s), [400.0, 300.0, (7.5f32 - 0.1) / 1000.0]);
}

// Whether `back` lies within 16 * 2^-24 of the sizes of `p` and `q` together, and three
// of the least places, of `p`.
fn back_within(back: F32, p: F32, q: F32) -> bool {
    let (b, p, q) = (val(back) as f64, val(p) as f64, val(q) as f64);
    let bound = 16.0 * (p.abs() + q.abs()) / 16_777_216.0 + 3.0 * f64::from_bits(0x36a0_0000_0000_0000);
    (b - p).abs() <= bound
}

#[test]
fn a_turn_and_the_turn_back_return_the_vector() {
    assert_eq!(f64::from_bits(0x36a0_0000_0000_0000), f32::from_bits(1) as f64);
    let mut state = 0x2236_0679_7749_9789u64;
    let none = Angle::new(num(0.0), num(0.0), num(1.0));
    for round in 0..20_000 {
        let theta = rand(&mut state, 7.0);
        let range = if round % 3 == 0 { 1e-3 } else if round % 3 == 1 { 10.0 } else { 1e6 };
        let v = v3(rand(&mut state, range), rand(&mut state, range), rand(&mut state, range));
        let there = angle(theta);
        let back = Angle::new(there.radians.neg(), there.sin.neg(), there.cos);
        // the sine and the cosine are those of one angle as nearly as can be said
        let (s, c) = (val(there.sin) as f64, val(there.cos) as f64);
        assert!(s.abs() <= 1.0 && c.abs() <= 1.0);
        assert!((s * s + c * c - 1.0).abs() <= 4.0 / 16_777_216.0);
        let r = v.rotate_x(there).rotate_x(back);
        assert!(r.x.to_bits() == v.x.to_bits() && back_within(r.y, v.y, v.z) && back_within(r.z, v.z, v.y));
        let r = v.rotate_y(there).rotate_y(back);
        assert!(r.y.to_bits() == v.y.to_bits() && back_within(r.x, v.x, v.z) && back_within(r.z, v.z, v.x));
        let r = v.rotate_z(there).rotate_z(back);
        assert!(r.z.to_bits() == v.z.to_bits() && back_within(r.x, v.x, v.y) && back_within(r.y, v.y, v.x));
        // and so for a vertex that is placed and placed back
        let placed = transform_vertex(Vec3::zero(), Rotation::new(there, none, none), v);
        let r = transform_vertex(Vec3::zero(), Rotation::new(back, none, none), placed);
        assert!(r.x == v.x && back_within(r.y, v.y, v.z) && back_within(r.z, v.z, v.y));
        let placed = transform_vertex(Vec3::zero(), Rotation::new(none, there, none), v);
        let r = transform_vertex(Vec3::zero(), Rotation::new(none, back, none), placed);
        assert!(r.y == v.y && back_within(r.x, v.x, v.z) && back_within(r.z, v.z, v.x));
        let placed = transform_vertex(Vec3::zero(), Rotation::new(none, none, there), v);
        let r = transform_vertex(Vec3::zero(), Rotation::new(none, none, back), placed);
        assert!(r.z == v.z && back_within(r.x, v.x, v.y) && back_within(r.y, v.y, v.x));
    }
}

#[test]
fn a_normalised_vector_has_length_one() {
    let mut state = 0x1732_0508_0756_8877u64;
    let bound = 34.0 / 16_777_216.0;
    let mut worst = 0.0f64;
    for round in 0..60_000 {
        let range = match round % 6 {
            0 => 1e-9,
            1 => 1e-3,
            2 => 1.0,
            3 => 1e3,
            4 => 1e12,
            _ => 1e18,
        };
        let mut v = v3(rand(&mut state, range), rand(&mut state, range), rand(&mut state, range));
        if round % 7 == 0 {
            v.y = num(0.0);
        }
        if round % 11 == 0 {
            v.z = num(val(v.z) * 1e-20);
        }
        let squared = v.length_squared();
        if !(val(squared).is_finite() && val(squared) >= 2f32.powi(-64)) {
            continue;
        }
        let length = val(v.normalize().length()) as f64;
        assert!((length - 1.0).abs() <= bound, "{:?} {}", arr3(v), length);
        assert!(v.normalize_or_zero() == v.normalize());
        // and in the plane
        let flat = Vec2::new(v.x, v.z);
        let squared = val(flat.length_squared());
        if squared.is_finite() && squared >= 2f32.powi(-64) {
            let length = val(flat.normalize().length()) as f64;
            assert!((length - 1.0).abs() <= bound, "{}", length);
        }
        worst = worst.max((length - 1.0).abs());
    }
    assert!(worst > 0.0);
    // where the squares are lost or pass the largest number there is no such length
    assert_eq!(arr3(v3(1e30, 0.0, 0.0).normalize_or_zero()), [0.0, 0.0, 0.0]);
    assert_eq!(arr3(v3(1e-30, 0.0, 0.0).normalize_or_zero()), [0.0, 0.0, 0.0]);
}

#[test]
fn what_any_camera_sees_straight_ahead_lands_in_the_middle() {
    let mut state = 0x2645_7513_1106_4590u64;
    let mut worst = 0.0f64;
    let mut placed = 0;
    for round in 0..20_000 {
        let (yaw, pitch) = (rand(&mut state, 3.1), rand(&mut state, 1.5));
        let fov = 0.13 + rand(&mut state, 1.4).abs();
        let depth = match round % 3 {
            0 => 1e-3 + rand(&mut state, 1.0).abs(),
            1 => 1.0 + rand(&mut state, 500.0).abs(),
            _ => 1e6 + rand(&mut state, 1e9).abs(),
        };
        let mut cam = camera(0.0, 0.0, 0.0, pitch, yaw, fov, 0.0, 1e12);
        if round % 2 == 0 {
            cam.translation = v3(rand(&mut state, 50.0), rand(&mut state, 50.0), rand(&mut state, 50.0));
        }
        assert!(1.0 / val(cam.trig.half_fov_tan) <= 16.0);
        // the angles themselves, from the negated ones that the camera holds
        let to_yaw = Angle::new(cam.yaw, cam.trig.neg_yaw.sin.neg(), cam.trig.neg_yaw.cos);
        let to_pitch = Angle::new(cam.pitch, cam.trig.neg_pitch.sin.neg(), cam.trig.neg_pitch.cos);
        let ahead = v3(0.0, 0.0, depth).rotate_x(to_pitch).rotate_y(to_yaw);
        let v = cam.translation.add(ahead);
        let exact = arr3(v.sub(cam.translation)).map(f32::to_bits) == arr3(ahead).map(f32::to_bits);
        let near_enough = arr3(cam.translation).iter().all(|t| t.abs() <= 32.0 * depth);
        if !exact && !near_enough {
            continue;
        }
        let s = vertex_world_to_screen_space(1280, 720, &cam, v);
        let (x, y) = (val(s.x) as f64, val(s.y) as f64);
        assert!((2.0 * x - 1280.0).abs() <= 1280.0 / 512.0, "{} {} {}", x, yaw, pitch);
        assert!((2.0 * y - 720.0).abs() <= 720.0 / 512.0, "{} {} {}", y, yaw, pitch);
        // the depth that the camera sees is the depth of the point, and the vertex is kept
        let seen = val(vertex_world_to_camera_space(&cam, v).z) as f64;
        assert!((seen - depth as f64).abs() <= 512.0 / 16_777_216.0 * depth as f64);
        assert!(vertex_world_to_screen_space_clipped(1280, 720, &cam, v).is_some());
        if exact {
            worst = worst.max((x - 640.0).abs() / 1280.0).max((y - 360.0).abs() / 720.0);
        } else {
            placed += 1;
        }
    }
    assert!(worst > 0.0 && worst < 1e-4, "{}", worst);
    assert!(placed > 1_000);
}

#[test]
fn the_matrix_of_a_quaternion_turns_nearly_as_the_whole_angle_does() {
    let mut state = 0x3183_0988_6743_8744u64;
    let u = 1.0 / 16_777_216.0f64;
    let least = f32::from_bits(1) as f64;
    let mut held = 0;
    for _ in 0..20_000 {
        let theta = rand(&mut state, 3.0);
        let v = v3(rand(&mut state, 10.0), rand(&mut state, 10.0), rand(&mut state, 10.0));
        let half = angle(val(Quat::half_angle(num(theta))));
        let full = angle(theta);
        let p = v.extend(num(1.0));
        let (fs, fc) = (val(full.sin) as f64, val(full.cos) as f64);
        let cases = [
            (Quat::from_rotation_x(num(theta), half).compute_mat4(), v.rotate_x(full), 0),
            (Quat::from_rotation_y(num(theta), half).compute_mat4(), v.rotate_y(full), 1),
            (Quat::from_rotation_z(num(theta), half).compute_mat4(), v.rotate_z(full), 2),
        ];
        for (m, turned, axis) in cases {
            let (ms, mc) = match axis {
                0 => (m.r3.y, m.r2.y),
                1 => (m.r1.z, m.r1.x),
                _ => (m.r2.x, m.r1.x),
            };
            let (ms, mc) = (val(ms) as f64, val(mc) as f64);
            if ms.abs() > 1.0 || mc.abs() > 1.0 {
                continue;
            }
            let d = (ms - fs).abs().max((mc - fc).abs());
            let got = arr3(m.mult_vec4(p).reduce()).map(|c| c as f64);
            let want = arr3(turned).map(|c| c as f64);
            let all = arr3(v).map(|c| (c as f64).abs());
            let together = all[0] + all[1] + all[2] - all[axis];
            let bound = (d + 4.0 * u) * together + 2.0 * least;
            for i in 0..3 {
                if i == axis {
                    assert_eq!(got[i], want[i]);
                } else {
                    assert!((got[i] - want[i]).abs() <= bound, "{} {} {}", got[i], want[i], bound);
                }
            }
            // the sine and the cosine that the matrix holds are near those of the angle
            assert!(d <= 8.0 * u);
            // those of the whole angle are those of twice the half, and so the matrix
            // turns as the whole angle does
            let (hs, hc) = (val(half.sin) as f64, val(half.cos) as f64);
            assert!((hs * hs + hc * hc - 1.0).abs() <= 4.0 * u);
            assert!((fs - 2.0 * hs * hc).abs() <= 16.0 * u && (fc - (1.0 - 2.0 * hs * hs)).abs() <= 16.0 * u);
            for i in 0..3 {
                assert!((got[i] - want[i]).abs() <= 100.0 * u * together + 2.0 * least);
            }
            held += 1;
        }
    }
    assert!(held > 30_000, "{}", held);
}

#[test]
fn products_of_matrices_of_whole_numbers_associate() {
    let mut state = 0x1905_0115_1207_2708u64;
    let mut table = |bound: i64| {
        let mut t = [[0i64; 4]; 4];
        for row in t.iter_mut() {
            for e in row.iter_mut() {
                *e = (next(&mut state) % (2 * bound as u64 + 1)) as i64 - bound;
            }
        }
        t
    };
    let matrix = |t: &[[i64; 4]; 4]| Mat4 {
        r1: v4(t[0][0] as f32, t[0][1] as f32, t[0][2] as f32, t[0][3] as f32),
        r2: v4(t[1][0] as f32, t[1][1] as f32, t[1][2] as f32, t[1][3] as f32),
        r3: v4(t[2][0] as f32, t[2][1] as f32, t[2][2] as f32, t[2][3] as f32),
        r4: v4(t[3][0] as f32, t[3][1] as f32, t[3][2] as f32, t[3][3] as f32),
    };
    let times = |f: &[[i64; 4]; 4], g: &[[i64; 4]; 4]| {
        let mut t = [[0i64; 4]; 4];
        for i in 0..4 {
            for j in 0..4 {
                t[i][j] = (0..4).map(|k| f[i][k] * g[k][j]).sum();
            }
        }
        t
    };
    let mut differ = 0;
    for _ in 0..2_000 {
        let (f, g, h) = (table(100), table(100), table(100));
        let (a, b, c) = (matrix(&f), matrix(&g), matrix(&h));
        let left = a.mult_mat4(&b).mult_mat4(&c);
        let right = a.mult_mat4(&b.mult_mat4(&c));
        assert!(left == right);
        assert!(left == matrix(&times(&times(&f, &g), &h)));
        if !(a.mult_mat4(&b) == b.mult_mat4(&a)) {
            differ += 1;
        }
    }
    // the order of two matrices matters
    assert!(differ > 1_900);
}
