// The flock and the camera's controls.

use tea_sir::boids::{
    apply_velocity, avoid_bounds, boid_forces, boid_from_samples, boid_vertices, cube, draw_boids, draw_bounds,
    first_flock, render, update, Boid, BoidMemory,
};
use tea_sir::camera::{debug_draw_frustum, handle_input, update_camera, Camera, CameraController, Input, Key};
use tea_sir::double::F64;
use tea_sir::math::angle::Angle;
use tea_sir::math::vec::Vec3;
use tea_sir::raster::{Fill, Srgb};
use tea_sir::single::F32;

fn num(x: f32) -> F32 {
    F32::from_bits(x.to_bits())
}

fn val(x: F32) -> f32 {
    f32::from_bits(x.to_bits())
}

fn v3(x: f32, y: f32, z: f32) -> Vec3 {
    Vec3::new(num(x), num(y), num(z))
}

fn arr3(v: Vec3) -> [f32; 3] {
    [val(v.x), val(v.y), val(v.z)]
}

fn angle(radians: f32) -> Angle {
    let (s, c) = libm::sincosf(radians);
    Angle::new(num(radians), num(s), num(c))
}

fn camera(x: f32, y: f32, z: f32, pitch: f32, yaw: f32, fov: f32, nearz: f32, farz: f32) -> Camera {
    let mut c = Camera::default();
    c.translation = v3(x, y, z);
    c.pitch = num(pitch);
    c.yaw = num(yaw);
    c.fov = num(fov);
    c.nearz = num(nearz);
    c.farz = num(farz);
    set_trig(&mut c);
    c
}

// Takes the sines, cosines and tangent of the camera's angles and sets them.
fn set_trig(c: &mut Camera) {
    let radians = c.trig_radians();
    let sin_cos = radians.map(|a| {
        let (s, co) = libm::sincosf(val(a));
        (num(s), num(co))
    });
    c.set_trig(sin_cos, num(val(radians[3]).tan()));
    assert!(c.has_trig());
}

fn boid(t: [f32; 3], v: [f32; 3]) -> Boid {
    Boid { translation: v3(t[0], t[1], t[2]), velocity: v3(v[0], v[1], v[2]) }
}

#[test]
fn two_boids_too_near_part_and_a_distant_one_is_left_alone() {
    let mut m = BoidMemory::new(vec![
        boid([0.0, 0.0, 0.0], [0.0, 0.0, 0.0]),
        boid([1.0, 0.0, 0.0], [0.0, 0.0, 0.0]),
        boid([200.0, 200.0, 200.0], [3.0, -4.0, 5.0]),
    ]);
    boid_forces(&mut m);
    // separation: (0 - 1) * 0.015; cohesion: (1 - 0) * 0.0005; alignment: 0
    let first = -1.0f32 * 0.015 + (1.0f32 / 1.0 - 0.0) * 0.0005 + (0.0f32 / 1.0 - 0.0) * 0.01;
    let second = 1.0f32 * 0.015 + (0.0f32 / 1.0 - 1.0) * 0.0005 + (0.0f32 / 1.0 - 0.0) * 0.01;
    assert_eq!(val(m.boids[0].velocity.x), first);
    assert_eq!(val(m.boids[1].velocity.x), second);
    assert!(val(m.boids[0].velocity.x) < 0.0 && val(m.boids[1].velocity.x) > 0.0);
    assert!(val(m.boids[0].velocity.sub(m.boids[1].velocity).length()) > 0.0);
    assert_eq!(arr3(m.boids[2].velocity), [3.0, -4.0, 5.0]);
    assert_eq!(arr3(m.boids[0].translation), [0.0, 0.0, 0.0]);
    assert_eq!(arr3(m.boids[1].translation), [1.0, 0.0, 0.0]);
    assert_eq!(arr3(m.boids[2].translation), [200.0, 200.0, 200.0]);
}

#[test]
fn a_boid_in_view_but_not_too_near_is_followed_not_fled() {
    // 10 apart: inside the view radius of 18, outside the separation radius of 8
    let mut m = BoidMemory::new(vec![
        boid([0.0, 0.0, 0.0], [1.0, 0.0, 0.0]),
        boid([0.0, 10.0, 0.0], [0.0, 2.0, 0.0]),
    ]);
    boid_forces(&mut m);
    let zero = 0.0f32 * 0.015;
    assert_eq!(
        arr3(m.boids[0].velocity),
        [
            1.0 + (zero + (0.0f32 / 1.0 - 0.0) * 0.0005 + (0.0f32 / 1.0 - 1.0) * 0.01),
            0.0 + (zero + (10.0f32 / 1.0 - 0.0) * 0.0005 + (2.0f32 / 1.0 - 0.0) * 0.01),
            0.0
        ]
    );
    // the radii count their own distance in: 8 apart is too near
    let mut m = BoidMemory::new(vec![boid([0.0; 3], [0.0; 3]), boid([8.0, 0.0, 0.0], [0.0; 3])]);
    boid_forces(&mut m);
    assert_eq!(val(m.boids[0].velocity.x), -8.0f32 * 0.015 + 8.0f32 * 0.0005 + 0.0);
}

#[test]
fn walls_turn_a_boid_back() {
    let mut m = BoidMemory::new(vec![
        boid([-200.0, 200.0, 0.0], [1.0, 1.0, 1.0]),
        boid([-180.0, 180.0, 179.0], [1.0, 1.0, 1.0]),
    ]);
    avoid_bounds(&mut m);
    // within 60 of a wall: x < -180 gains 1, y > 180 loses 1
    assert_eq!(arr3(m.boids[0].velocity), [2.0, 0.0, 1.0]);
    assert_eq!(arr3(m.boids[1].velocity), [1.0, 1.0, 1.0]);
}

#[test]
fn speeds_are_held_between_sixty_and_a_hundred() {
    let mut m = BoidMemory::new(vec![
        boid([0.0; 3], [300.0, 0.0, 400.0]),
        boid([0.0; 3], [3.0, 0.0, 4.0]),
        boid([1.0, 2.0, 3.0], [0.0, 80.0, 0.0]),
        boid([1.0, 2.0, 3.0], [0.0, 0.0, 0.0]),
    ]);
    apply_velocity(&mut m, num(0.5));
    assert_eq!(arr3(m.boids[0].velocity), [300.0f32 / 500.0 * 100.0, 0.0, 400.0f32 / 500.0 * 100.0]);
    assert_eq!(arr3(m.boids[1].velocity), [3.0f32 / 5.0 * 60.0, 0.0, 4.0f32 / 5.0 * 60.0]);
    assert_eq!(arr3(m.boids[2].velocity), [0.0, 80.0, 0.0]);
    assert_eq!(arr3(m.boids[2].translation), [1.0, 42.0, 3.0]);
    // no speed and no direction: the boid stays
    assert_eq!(arr3(m.boids[3].velocity), [0.0, 0.0, 0.0]);
    assert_eq!(arr3(m.boids[3].translation), [1.0, 2.0, 3.0]);
    assert_eq!(arr3(m.boids[0].translation), [300.0f32 / 500.0 * 100.0 * 0.5, 0.0, 400.0f32 / 500.0 * 100.0 * 0.5]);
}

#[test]
fn a_step_is_forces_then_walls_then_the_move() {
    let start = || {
        BoidMemory::new(vec![
            boid([0.0, 0.0, 0.0], [70.0, 0.0, 0.0]),
            boid([1.0, 2.0, 0.0], [0.0, 70.0, 0.0]),
            boid([-230.0, 0.0, 235.0], [0.0, 0.0, 90.0]),
        ])
    };
    let mut a = start();
    update(&mut a, num(0.016));
    let mut b = start();
    boid_forces(&mut b);
    avoid_bounds(&mut b);
    apply_velocity(&mut b, num(0.016));
    for (x, y) in a.boids.iter().zip(b.boids.iter()) {
        assert_eq!(arr3(x.translation).map(f32::to_bits), arr3(y.translation).map(f32::to_bits));
        assert_eq!(arr3(x.velocity).map(f32::to_bits), arr3(y.velocity).map(f32::to_bits));
    }
    assert_eq!(val(a.margin), 60.0);
    assert_eq!(val(a.turn_factor), 1.0);
    assert_eq!(val(a.separation_factor), 0.015);
    assert_eq!(val(a.cohesion_factor), 0.0005);
    assert_eq!(val(a.alignment_factor), 0.01);
    assert_eq!(val(a.view_radius_squared), libm::powf(18.0, 2.0));
    assert_eq!(val(a.separation_radius_squared), libm::powf(8.0, 2.0));
}

#[test]
fn the_flock_is_drawn_boid_by_boid() {
    let cam = camera(0.0, 0.0, -50.0, 0.0, 0.0, std::f32::consts::FRAC_PI_2, 0.1, 1000.0);
    let m = BoidMemory::new(vec![
        boid([0.0, 0.0, 0.0], [0.0; 3]),
        boid([0.0, 0.0, -100.0], [0.0; 3]),
        boid([240.0, -480.0, 120.0], [0.0; 3]),
    ]);
    let triangles = draw_boids(&m, 640, 360, &cam);
    // the second boid is behind the camera
    assert_eq!(triangles.len(), 24);
    match triangles[0].fill {
        Fill::Flat(c) => assert_eq!([val(c.r), val(c.g), val(c.b)], [0.5, 0.5, 0.5]),
        _ => panic!("a boid has one colour"),
    }
    match triangles[12].fill {
        Fill::Flat(c) => assert_eq!([val(c.r), val(c.g), val(c.b)], [1.0, 0.0, 0.75]),
        _ => panic!("a boid has one colour"),
    }
    let lines = draw_bounds(640, 360, &cam);
    // the four edges of the far wall and nothing of the near one, which is behind the camera
    assert_eq!(lines.len(), 4);
    assert_eq!(lines[0].color, Srgb { r: 0, g: 255, b: 0, a: 255 });
    let both = render(&m, 640, 360, &cam);
    assert_eq!((both.0.len(), both.1.len()), (24, 4));
    let outside = camera(0.0, 0.0, -500.0, 0.0, 0.0, std::f32::consts::FRAC_PI_2, 0.1, 1000.0);
    assert_eq!(draw_bounds(640, 360, &outside).len(), 12);
}

#[test]
fn the_box_of_a_boid_has_its_corners() {
    let c = cube(v3(1.0, 2.0, 3.0));
    assert_eq!(arr3(c[0]), [-1.0, -2.0, -3.0]);
    assert_eq!(arr3(c[1]), [1.0, -2.0, -3.0]);
    assert_eq!(arr3(c[6]), [1.0, 2.0, 3.0]);
    assert_eq!(arr3(c[7]), [-1.0, 2.0, 3.0]);
    let v = boid_vertices();
    assert_eq!(arr3(v[0]), [-1.0, -1.0, -1.0]);
    assert_eq!(arr3(v[1]), [1.0, -1.0, -1.0]);
    assert_eq!(arr3(v[35]), [-1.0, 1.0, 1.0]);
}

#[test]
fn keys_set_their_flags() {
    let mut cam = camera(0.0, 0.0, 0.0, 0.1, 0.2, 1.0, 0.1, 100.0);
    let mut c = CameraController::default();
    for (key, read) in [
        (Key::W, (|c: &CameraController| c.forward_pressed) as fn(&CameraController) -> bool),
        (Key::S, |c| c.back_pressed),
        (Key::A, |c| c.left_pressed),
        (Key::D, |c| c.right_pressed),
        (Key::Space, |c| c.up_pressed),
        (Key::ShiftLeft, |c| c.down_pressed),
    ] {
        assert!(!read(&c));
        handle_input(Input::Key { key, pressed: true }, &mut cam, &mut c);
        assert!(read(&c));
        let held = c;
        handle_input(Input::Key { key: Key::Other, pressed: false }, &mut cam, &mut c);
        handle_input(Input::Other, &mut cam, &mut c);
        assert_eq!(c, held);
        handle_input(Input::Key { key, pressed: false }, &mut cam, &mut c);
        assert!(!read(&c));
    }
    assert_eq!(c, CameraController::default());
    assert_eq!([val(cam.pitch), val(cam.yaw)], [0.1, 0.2]);
}

#[test]
fn the_mouse_turns_the_camera_and_the_pitch_stops_at_a_quarter_turn() {
    let mut cam = camera(0.0, 0.0, 0.0, 0.0, 0.0, 1.0, 0.1, 100.0);
    let mut c = CameraController::default();
    let motion = |dx: f64, dy: f64| Input::MouseMotion { dx: F64::from_bits(dx.to_bits()), dy: F64::from_bits(dy.to_bits()) };
    handle_input(motion(10.0, -4.0), &mut cam, &mut c);
    assert_eq!(val(cam.yaw), 0.0 + 10.0f64 as f32 * 0.005);
    assert_eq!(val(cam.pitch), 0.0 + -4.0f64 as f32 * 0.005);
    handle_input(motion(0.1, 1000.0), &mut cam, &mut c);
    assert_eq!(val(cam.yaw), 10.0f64 as f32 * 0.005 + 0.1f64 as f32 * 0.005);
    assert_eq!(val(cam.pitch), std::f32::consts::FRAC_PI_2);
    handle_input(motion(0.0, -1000.0), &mut cam, &mut c);
    assert_eq!(val(cam.pitch), -std::f32::consts::FRAC_PI_2);
    assert_eq!(c, CameraController::default());
}

#[test]
fn the_camera_moves_where_the_keys_point() {
    let mut cam = camera(1.0, 2.0, 3.0, 0.0, 0.0, 1.0, 0.1, 100.0);
    let still = CameraController::default();
    update_camera(&mut cam, &still, num(0.5));
    assert_eq!(arr3(cam.translation), [1.0, 2.0, 3.0]);
    let opposed = CameraController { forward_pressed: true, back_pressed: true, ..still };
    update_camera(&mut cam, &opposed, num(0.5));
    assert_eq!(arr3(cam.translation), [1.0, 2.0, 3.0]);
    let forward = CameraController { forward_pressed: true, ..still };
    update_camera(&mut cam, &forward, num(0.5));
    assert_eq!(arr3(cam.translation), [1.0, 2.0, 53.0]);
    let down_left = CameraController { left_pressed: true, down_pressed: true, ..still };
    update_camera(&mut cam, &down_left, num(0.1));
    let step = 1.0f32 / 2.0f32.sqrt() * (100.0f32 * 0.1);
    assert_eq!(arr3(cam.translation), [1.0 + -step, 2.0 + -step, 53.0 + (step * 0.0 + 0.0)]);
    // a turned camera walks where it faces
    let mut turned = camera(0.0, 0.0, 0.0, 0.0, std::f32::consts::FRAC_PI_2, 1.0, 0.1, 100.0);
    update_camera(&mut turned, &forward, num(1.0));
    let (s, c) = libm::sincosf(std::f32::consts::FRAC_PI_2);
    assert_eq!(arr3(turned.translation), [0.0 + (0.0 * c + 100.0 * s), 0.0, 0.0 + (-0.0 * s + 100.0 * c)]);
}

#[test]
fn the_view_of_a_camera_is_drawn_as_a_blue_wireframe() {
    let watched = camera(0.0, 0.0, 0.0, 0.0, 0.0, std::f32::consts::FRAC_PI_2, 1.0, 10.0);
    let watcher = camera(0.0, 0.0, -50.0, 0.0, 0.0, std::f32::consts::FRAC_PI_2, 0.1, 1000.0);
    let tan_y = libm::tanf(std::f32::consts::FRAC_PI_4);
    let tan_x = libm::tanf(libm::atanf(tan_y * 640.0 / 360.0));
    let drawn = debug_draw_frustum(640, 360, &watched, num(tan_y), num(tan_x), &watcher);
    assert_eq!(drawn.len(), 12);
    match drawn[0].fill {
        Fill::Wire(c) => assert_eq!(c, Srgb { r: 0, g: 0, b: 255, a: 255 }),
        _ => panic!("a view is drawn in wire"),
    }
    // the first corner is (-near width, -near height, near) in the world
    let corner = v3(-(1.0 * tan_x), -(1.0 * tan_y), 1.0);
    let s = tea_sir::math::transform::vertex_world_to_screen_space(640, 360, &watcher, corner);
    assert_eq!((drawn[0].v1.x, drawn[0].v1.y), (s.x.floor_to_i32(), s.y.floor_to_i32()));
    assert_eq!(drawn[0].v1.z.to_bits(), s.z.to_bits());
}

#[test]
fn the_first_flock_is_made_of_samples() {
    let b = boid_from_samples(num(3.0), num(0.0), num(4.0));
    // the direction (0.6, 0, 0.8), times 2 and times 240, less 240
    assert_eq!(arr3(b.translation), [0.6f32 * 2.0 * 240.0 - 240.0, 0.0 * 2.0 * 240.0 - 240.0, 0.8f32 * 2.0 * 240.0 - 240.0]);
    assert_eq!(arr3(b.velocity), [0.6f32 * 2.0 * 100.0 - 100.0, -100.0, 0.8f32 * 2.0 * 100.0 - 100.0]);
    let still = boid_from_samples(num(0.0), num(0.0), num(0.0));
    assert_eq!(arr3(still.translation), [-240.0, -240.0, -240.0]);
    assert_eq!(arr3(still.velocity), [-100.0, -100.0, -100.0]);
    let samples: Vec<_> = [0.5f32, 0.25, 0.125, 3.0, 0.0, 4.0, 9.0, 9.0].iter().map(|x| num(*x)).collect();
    let flock = first_flock(&samples);
    assert_eq!(flock.len(), 2);
    assert_eq!(arr3(flock[1].translation), arr3(b.translation));
    let (x, y, z) = (0.5f32, 0.25f32, 0.125f32);
    let len = libm::sqrtf(x * x + y * y + z * z);
    assert_eq!(arr3(flock[0].velocity), [x / len * 2.0 * 100.0 - 100.0, y / len * 2.0 * 100.0 - 100.0, z / len * 2.0 * 100.0 - 100.0]);
    assert_eq!(first_flock(&vec![]).len(), 0);
}

#[test]
fn the_speed_limits_hold_for_every_velocity() {
    let mut state = 0x4142_1356_2373_0950u64;
    let mut draw = |range: f32| {
        state ^= state << 13;
        state ^= state >> 7;
        state ^= state << 17;
        ((state >> 40) as f32 / (1u64 << 24) as f32 * 2.0 - 1.0) * range
    };
    let bound = 43.0 / 16_777_216.0;
    let (mut fast, mut slow, mut kept) = (0, 0, 0);
    for round in 0..3_000 {
        let range = match round % 4 {
            0 => 1e-6,
            1 => 40.0,
            2 => 90.0,
            _ => 1e9,
        };
        let v = v3(draw(range), draw(range), draw(range));
        let squared = val(v.length_squared());
        if squared < 2f32.powi(-64) {
            continue;
        }
        let mut m = BoidMemory::new(vec![boid([1.0, 2.0, 3.0], arr3(v))]);
        apply_velocity(&mut m, num(0.25));
        let after = m.boids[0].velocity;
        let speed = val(after.length()) as f64;
        if squared > 10_000.0 {
            assert!((speed - 100.0).abs() <= bound * 100.0, "{}", speed);
            fast += 1;
        } else if squared < 3_600.0 {
            assert!((speed - 60.0).abs() <= bound * 60.0, "{}", speed);
            slow += 1;
        } else {
            assert_eq!(arr3(after).map(f32::to_bits), arr3(v).map(f32::to_bits));
            kept += 1;
        }
        assert_eq!(
            arr3(m.boids[0].translation),
            [1.0 + val(after.x) * 0.25, 2.0 + val(after.y) * 0.25, 3.0 + val(after.z) * 0.25]
        );
    }
    assert!(fast > 100 && slow > 100 && kept > 100, "{} {} {}", fast, slow, kept);
}

#[test]
fn a_near_pair_that_flies_alike_is_driven_apart() {
    let mut state = 0x5256_9437_1480_4913u64;
    let mut draw = |range: f32| {
        state ^= state << 13;
        state ^= state >> 7;
        state ^= state << 17;
        ((state >> 40) as f32 / (1u64 << 24) as f32 * 2.0 - 1.0) * range
    };
    let (sf, cf) = (0.015f32, 0.0005f32);
    let mut lost = 0;
    for round in 0..5_000 {
        let p = [draw(100.0), draw(100.0), draw(100.0)];
        let q = [p[0] + draw(4.0), p[1] + draw(4.0), p[2] + draw(4.0)];
        let speed = if round % 5 == 0 { 1e7 } else { 80.0 };
        let v = [draw(speed), draw(speed), draw(speed)];
        let mut m = BoidMemory::new(vec![boid(p, v), boid([230.0, -230.0, 230.0], [1.0; 3]), boid(q, v)]);
        boid_forces(&mut m);
        let (first, second) = (m.boids[0].velocity, m.boids[2].velocity);
        let mut dot = 0.0f32;
        for k in 0..3 {
            let d = p[k] - q[k];
            let drive = d * sf - d * cf;
            assert_eq!(arr3(first)[k], v[k] + drive);
            assert_eq!(arr3(second)[k], v[k] - drive);
            // the drive is the way off times the difference of the factors, but for rounding
            let exact = d as f64 * (sf as f64 - cf as f64);
            assert!((drive as f64 - exact).abs() <= 4.0 * (d as f64).abs() / 16_777_216.0 + 1e-44);
            // and the two get no nearer
            let g = arr3(first)[k] - arr3(second)[k];
            assert!(g * d >= 0.0);
            if g == 0.0 && d != 0.0 {
                lost += 1;
            }
            dot += g * d;
        }
        assert!(dot >= 0.0);
        assert_eq!(arr3(m.boids[1].velocity), [1.0, 1.0, 1.0]);
    }
    // where the velocities are large the drive may be lost in them
    assert!(lost > 0);
}
