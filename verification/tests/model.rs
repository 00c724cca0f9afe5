// Meshes, their boxes, and what the drawing routines hand to the rasterizer.

use tea_sir::camera::Camera;
use tea_sir::math::angle::{Angle, Rotation};
use tea_sir::math::mat::Mat4;
use tea_sir::math::quat::Quat;
use tea_sir::math::transform::{
    compute_model_matrix, compute_model_to_clip_matrix, compute_model_to_view_matrix,
    compute_perspective_proj_matrix, compute_view_matrix, vertex_world_to_camera_space,
    vertex_world_to_screen_space,
};
use tea_sir::math::vec::{Vec2, Vec3};
use tea_sir::model::{
    clip_to_screen, compute_obb, debug_draw_obb, draw_model, draw_model_backface_culled, draw_model_matrix,
    draw_wire_box, obb_corners, obb_visible, Axis, Model, ModelError, Obb,
};
use tea_sir::raster::{box_triangles, Fill, ScreenVertex, Srgb, Triangle};
use tea_sir::single::F32;

fn num(x: f32) -> F32 {
    F32::from_bits(x.to_bits())
}

fn val(x: F32) -> f32 {
    f32::from_bits(x.to_bits())
}

fn v3(x: f32, y: f32, z: f32) -> Vec3 {
    Vec3::new(num(x), num(y), num(z))
}

fn arr3(v: Vec3) -> [f32; 3] {
    [val(v.x), val(v.y), val(v.z)]
}

fn angle(radians: f32) -> Angle {
    let (s, c) = libm::sincosf(radians);
    Angle::new(num(radians), num(s), num(c))
}

fn camera(x: f32, y: f32, z: f32, pitch: f32, yaw: f32, fov: f32, nearz: f32, farz: f32) -> Camera {
    let mut c = Camera::default();
    c.translation = v3(x, y, z);
    c.pitch = num(pitch);
    c.yaw = num(yaw);
    c.fov = num(fov);
    c.nearz = num(nearz);
    c.farz = num(farz);
    set_trig(&mut c);
    c
}

// Takes the sines, cosines and tangent of the camera's angles and sets them.
fn set_trig(c: &mut Camera) {
    let radians = c.trig_radians();
    let sin_cos = radians.map(|a| {
        let (s, co) = libm::sincosf(val(a));
        (num(s), num(co))
    });
    c.set_trig(sin_cos, num(val(radians[3]).tan()));
    assert!(c.has_trig());
}

const BOX: [usize; 36] = [
    0, 1, 2, 0, 2, 3, 5, 4, 7, 5, 7, 6, 4, 0, 3, 4, 3, 7, 1, 5, 6, 1, 6, 2, 4, 5, 1, 4, 1, 0, 3, 2, 6, 3, 6, 7,
];

fn corners(lo: [f32; 3], hi: [f32; 3]) -> Vec<Vec3> {
    vec![
        v3(lo[0], lo[1], lo[2]),
        v3(hi[0], lo[1], lo[2]),
        v3(hi[0], hi[1], lo[2]),
        v3(lo[0], hi[1], lo[2]),
        v3(lo[0], lo[1], hi[2]),
        v3(hi[0], lo[1], hi[2]),
        v3(hi[0], hi[1], hi[2]),
        v3(lo[0], hi[1], hi[2]),
    ]
}

// A box of eight vertices and twelve triangles.
fn cube(lo: [f32; 3], hi: [f32; 3]) -> Model {
    Model { faces: BOX.to_vec(), face_textures: vec![], verts: corners(lo, hi), uvs: vec![], textures: vec![] }
}

fn unit_cube() -> Model {
    cube([-0.5, -0.5, -0.5], [0.5, 0.5, 0.5])
}

fn front_camera() -> Camera {
    camera(0.0, 0.0, -5.0, 0.0, 0.0, std::f32::consts::FRAC_PI_2, 0.1, 1000.0)
}

fn pixel(v: ScreenVertex) -> (i32, i32, u32) {
    (v.x, v.y, v.z.to_bits())
}

#[test]
fn the_box_of_a_cube_is_the_cube() {
    let obb = compute_obb(&cube([-1.0, -2.0, -3.0], [4.0, 5.0, 6.0]));
    assert_eq!(arr3(obb.min), [-1.0, -2.0, -3.0]);
    assert_eq!(arr3(obb.max), [4.0, 5.0, 6.0]);
    assert!(obb.is_valid());
    let one = Model { faces: vec![0, 0, 0], face_textures: vec![], verts: vec![v3(7.0, 8.0, 9.0)], uvs: vec![], textures: vec![] };
    let obb = compute_obb(&one);
    assert_eq!([arr3(obb.min), arr3(obb.max)], [[7.0, 8.0, 9.0], [7.0, 8.0, 9.0]]);
}

#[test]
fn the_box_orders_bit_patterns_in_the_total_order() {
    let m = Model {
        faces: vec![0, 1, 2],
        face_textures: vec![],
        verts: vec![v3(0.0, 1.0, f32::NAN), v3(-0.0, f32::INFINITY, 2.0), v3(0.0, f32::NEG_INFINITY, -2.0)],
        uvs: vec![],
        textures: vec![],
    };
    let obb = compute_obb(&m);
    assert_eq!(obb.min.x.to_bits(), 0x8000_0000);
    assert_eq!(obb.max.x.to_bits(), 0);
    assert_eq!(val(obb.min.y), f32::NEG_INFINITY);
    assert_eq!(val(obb.max.y), f32::INFINITY);
    assert_eq!(val(obb.min.z), -2.0);
    assert!(val(obb.max.z).is_nan());
    assert!(!obb.is_valid());
    assert_eq!(val(Axis::X.of(v3(1.0, 2.0, 3.0))), 1.0);
    assert_eq!(val(Axis::Y.of(v3(1.0, 2.0, 3.0))), 2.0);
    assert_eq!(val(Axis::Z.of(v3(1.0, 2.0, 3.0))), 3.0);
}

#[test]
fn the_corners_of_a_box_give_the_box_back() {
    let obb = Obb { min: v3(-1.0, -0.0, -3.0), max: v3(4.0, 0.0, 6.0) };
    let c = obb_corners(obb, Vec3::zero(), Rotation::zero());
    let expected = corners([-1.0, 0.0, -3.0], [4.0, 0.0, 6.0]);
    for k in 0..8 {
        assert_eq!(arr3(c[k]), arr3(expected[k]));
    }
    let again = compute_obb(&Model {
        faces: BOX.to_vec(),
        face_textures: vec![],
        verts: c.to_vec(),
        uvs: vec![],
        textures: vec![],
    });
    assert!(again.min == obb.min);
    assert!(again.max == obb.max);
}

#[test]
fn the_corners_of_a_box_are_placed_as_the_model_is() {
    let obb = Obb { min: v3(-1.0, -2.0, -3.0), max: v3(1.0, 2.0, 3.0) };
    let rot = Rotation::new(angle(0.2), angle(0.4), angle(0.6));
    let t = v3(5.0, 6.0, 7.0);
    let c = obb_corners(obb, t, rot);
    let plain = corners([-1.0, -2.0, -3.0], [1.0, 2.0, 3.0]);
    for k in 0..8 {
        let expected = plain[k].rotate_z(rot.z).rotate_y(rot.y).rotate_x(rot.x).add(t);
        assert_eq!(arr3(c[k]), arr3(expected));
    }
}

#[test]
fn a_box_before_the_camera_is_seen_and_one_behind_it_is_not() {
    let cam = front_camera();
    let obb = compute_obb(&unit_cube());
    assert!(obb_visible(640, 360, &cam, obb, Vec3::zero(), Rotation::zero()));
    // behind the camera: every z is negative in camera space
    assert!(!obb_visible(640, 360, &cam, obb, v3(0.0, 0.0, -20.0), Rotation::zero()));
    // far to the side
    assert!(!obb_visible(640, 360, &cam, obb, v3(500.0, 0.0, 0.0), Rotation::zero()));
    // beyond the far plane
    assert!(!obb_visible(640, 360, &cam, obb, v3(0.0, 0.0, 2000.0), Rotation::zero()));
    // a box that crosses the whole view with no corner in it is missed
    let wall = Obb { min: v3(-1000.0, -1000.0, 5.0), max: v3(1000.0, 1000.0, 6.0) };
    assert!(!obb_visible(640, 360, &cam, wall, Vec3::zero(), Rotation::zero()));
    // one corner in the view is enough
    let reach = Obb { min: v3(0.0, 0.0, 5.0), max: v3(1000.0, 1000.0, 6.0) };
    assert!(obb_visible(640, 360, &cam, reach, Vec3::zero(), Rotation::zero()));
}

#[test]
fn a_cube_before_the_camera_gives_twelve_triangles() {
    let cam = front_camera();
    let model = unit_cube();
    assert_eq!(model.validate(), Ok(()));
    let obb = compute_obb(&model);
    assert!(obb_visible(640, 360, &cam, obb, Vec3::zero(), Rotation::zero()));
    let drawn = draw_model(640, 360, &cam, &model, Vec3::zero(), Rotation::zero());
    assert_eq!(drawn.len(), 12);
    for (f, t) in drawn.iter().enumerate() {
        let expected: Vec<Vec3> = (0..3)
            .map(|k| vertex_world_to_screen_space(640, 360, &cam, model.verts[model.faces[3 * f + k]]))
            .collect();
        for (got, want) in [t.v1, t.v2, t.v3].iter().zip(expected.iter()) {
            assert_eq!(pixel(*got), (libm::floorf(val(want.x)) as i32, libm::floorf(val(want.y)) as i32, want.z.to_bits()));
        }
        match t.fill {
            Fill::Shaded(a, b, c) => {
                assert_eq!([val(a.r), val(a.g), val(a.b)], [1.0, 0.0, 0.0]);
                assert_eq!([val(b.r), val(b.g), val(b.b)], [0.0, 1.0, 0.0]);
                assert_eq!([val(c.r), val(c.g), val(c.b)], [0.0, 0.0, 1.0]);
            }
            _ => panic!("an untextured mesh is shaded"),
        }
    }
    // the first triangle of the near face: corners 0, 1 and 2 of the cube, 4.5 before the camera
    let scale = 1.0 / (std::f32::consts::FRAC_PI_2 / 2.0).tan();
    let x = |x: f32| libm::floorf((x * scale / 4.5 * (360.0 / 640.0) + 1.0) / 2.0 * 640.0) as i32;
    let y = |y: f32| libm::floorf((1.0 - (y * scale / 4.5 + 1.0) / 2.0) * 360.0) as i32;
    assert_eq!((drawn[0].v1.x, drawn[0].v1.y), (x(-0.5), y(-0.5)));
    assert_eq!((drawn[0].v2.x, drawn[0].v2.y), (x(0.5), y(-0.5)));
    assert_eq!((drawn[0].v3.x, drawn[0].v3.y), (x(0.5), y(0.5)));
    assert_eq!((x(-0.5), x(0.5), y(-0.5)), (300, 340, 200));
    assert_eq!(val(drawn[0].v1.z), (4.5f32 - 0.1) / 1000.0);
}

#[test]
fn faces_outside_the_depth_range_give_nothing() {
    let cam = front_camera();
    let model = unit_cube();
    // behind the camera
    assert_eq!(draw_model(640, 360, &cam, &model, v3(0.0, 0.0, -20.0), Rotation::zero()).len(), 0);
    // beyond the far plane
    assert_eq!(draw_model(640, 360, &cam, &model, v3(0.0, 0.0, 2000.0), Rotation::zero()).len(), 0);
    assert_eq!(draw_model_backface_culled(640, 360, &cam, &model, v3(0.0, 0.0, -20.0), Rotation::zero()).len(), 0);
    // across the near plane: the near face is behind it, the far face in front, and every
    // side face has a vertex on either side; only the two triangles of the far face stay
    let drawn = draw_model(640, 360, &cam, &model, v3(0.0, 0.0, -5.0), Rotation::zero());
    assert_eq!(drawn.len(), 2);
}

#[test]
fn backs_are_dropped_where_asked() {
    let cam = camera(0.0, 0.0, 0.0, 0.0, 0.0, std::f32::consts::FRAC_PI_2, 0.1, 1000.0);
    // one triangle at z = 5, wound one way and the other
    let wound = |faces: Vec<usize>| Model {
        faces,
        face_textures: vec![],
        verts: vec![v3(-1.0, -1.0, 5.0), v3(1.0, -1.0, 5.0), v3(0.0, 1.0, 5.0)],
        uvs: vec![],
        textures: vec![],
    };
    // (v3 - v1) x (v2 - v1) . v1 = (1, 2, 0) x (2, 0, 0) . (-1, -1, 5) = (0, 0, -4) . v1 = -20: culled
    let back = wound(vec![0, 1, 2]);
    // the other winding: (2, 0, 0) x (1, 2, 0) . v1 = (0, 0, 4) . v1 = 20: kept
    let front = wound(vec![0, 2, 1]);
    assert_eq!(draw_model(640, 360, &cam, &back, Vec3::zero(), Rotation::zero()).len(), 1);
    assert_eq!(draw_model(640, 360, &cam, &front, Vec3::zero(), Rotation::zero()).len(), 1);
    assert_eq!(draw_model_backface_culled(640, 360, &cam, &back, Vec3::zero(), Rotation::zero()).len(), 0);
    assert_eq!(draw_model_backface_culled(640, 360, &cam, &front, Vec3::zero(), Rotation::zero()).len(), 1);
    // of a cube seen from outside, half the faces at most show their front
    let cube = unit_cube();
    let all = draw_model(640, 360, &front_camera(), &cube, Vec3::zero(), Rotation::zero()).len();
    let fronts = draw_model_backface_culled(640, 360, &front_camera(), &cube, Vec3::zero(), Rotation::zero()).len();
    assert_eq!(all, 12);
    assert!(fronts < all && fronts > 0);
}

#[test]
fn a_textured_mesh_is_drawn_with_its_texture() {
    let cam = camera(0.0, 0.0, 0.0, 0.0, 0.0, std::f32::consts::FRAC_PI_2, 0.1, 1000.0);
    let white = Srgb { r: 255, g: 255, b: 255, a: 255 };
    let model = Model {
        faces: vec![0, 1, 2, 2, 1, 3],
        face_textures: vec![(0, 0), (1, 0), (2, 0), (2, 1), (1, 1), (3, 1)],
        verts: vec![v3(-1.0, -1.0, 5.0), v3(1.0, -1.0, 5.0), v3(-1.0, 1.0, 5.0), v3(1.0, 1.0, 5.0)],
        uvs: vec![
            Vec2::new(num(0.0), num(0.0)),
            Vec2::new(num(1.0), num(0.0)),
            Vec2::new(num(0.0), num(1.0)),
            Vec2::new(num(1.0), num(1.0)),
        ],
        textures: vec![(1, 1, vec![white]), (2, 1, vec![white, white])],
    };
    assert_eq!(model.validate(), Ok(()));
    let drawn = draw_model(640, 360, &cam, &model, Vec3::zero(), Rotation::zero());
    assert_eq!(drawn.len(), 2);
    match drawn[1].fill {
        Fill::Textured { texture, uv1, uv2, uv3 } => {
            assert_eq!(texture, 1);
            assert_eq!([val(uv1.x), val(uv1.y)], [0.0, 1.0]);
            assert_eq!([val(uv2.x), val(uv2.y)], [1.0, 0.0]);
            assert_eq!([val(uv3.x), val(uv3.y)], [1.0, 1.0]);
        }
        _ => panic!("a textured mesh is textured"),
    }
    match drawn[0].fill {
        Fill::Textured { texture, .. } => assert_eq!(texture, 0),
        _ => panic!("a textured mesh is textured"),
    }
}

#[test]
fn a_mesh_is_checked_before_it_is_drawn() {
    let good = unit_cube();
    assert_eq!(good.validate(), Ok(()));
    let with = |change: &dyn Fn(&mut Model)| {
        let mut m = unit_cube();
        change(&mut m);
        m.validate()
    };
    assert_eq!(Model::default().validate(), Err(ModelError::NoVertices));
    assert_eq!(with(&|m| m.verts.clear()), Err(ModelError::NoVertices));
    assert_eq!(with(&|m| m.faces.clear()), Err(ModelError::NoFaces));
    assert_eq!(with(&|m| m.faces.push(0)), Err(ModelError::RaggedFaces));
    assert_eq!(with(&|m| m.face_textures.push((0, 0))), Err(ModelError::RaggedBindings));
    assert_eq!(with(&|m| m.uvs.push(Vec2::zero())), Err(ModelError::TexturesIncomplete));
    assert_eq!(with(&|m| m.textures.push((0, 0, vec![]))), Err(ModelError::TexturesIncomplete));
    let textured = |change: &dyn Fn(&mut Model)| {
        let mut m = unit_cube();
        m.face_textures = vec![(0, 0); 36];
        m.uvs = vec![Vec2::zero()];
        m.textures = vec![(0, 0, vec![])];
        change(&mut m);
        m.validate()
    };
    assert_eq!(textured(&|_| ()), Ok(()));
    assert_eq!(textured(&|m| m.face_textures.truncate(33)), Err(ModelError::BindingCountMismatch));
    assert_eq!(textured(&|m| m.faces[35] = 8), Err(ModelError::VertexOutOfRange));
    assert_eq!(textured(&|m| m.face_textures[4] = (1, 0)), Err(ModelError::BindingOutOfRange));
    assert_eq!(textured(&|m| m.face_textures[4] = (0, 1)), Err(ModelError::BindingOutOfRange));
    assert_eq!(
        textured(&|m| {
            m.textures.push((0, 0, vec![]));
            m.face_textures[4] = (0, 1);
        }),
        Err(ModelError::MixedFace)
    );
    assert_eq!(with(&|m| m.faces[0] = 100), Err(ModelError::VertexOutOfRange));
}

#[test]
fn the_matrix_path_draws_every_face_in_a_fading_grey() {
    let cam = front_camera();
    let model = unit_cube();
    let model_matrix = compute_model_matrix(v3(0.0, -0.1, 1.0), Quat::identity(), v3(1.0, 1.0, 1.0));
    let m = compute_model_to_clip_matrix(&cam, 640, 360, &model_matrix);
    let to_view = compute_model_to_view_matrix(&cam, &model_matrix);
    let drawn = draw_model_matrix(640, 360, &cam, &model, &model_matrix);
    assert_eq!(drawn.len(), 12);
    let step = 0.8f32 / 12.0;
    let mut c = 1.0f32;
    for (f, t) in drawn.iter().enumerate() {
        match t.fill {
            Fill::Shaded(a, b, d) => {
                for col in [a, b, d] {
                    assert_eq!([col.r.to_bits(), col.g.to_bits(), col.b.to_bits()], [c.to_bits(); 3]);
                }
            }
            _ => panic!("the matrix path shades"),
        }
        c -= step;
        let p = model.verts[model.faces[3 * f]].extend(num(1.0));
        let depth = val(to_view.mult_vec4(p).z);
        assert!(depth >= 0.1 && depth <= 1000.0);
        let v = m.mult_vec4(p);
        let s = clip_to_screen(640, 360, v);
        assert_eq!(pixel(t.v1), (s.x.floor_to_i32(), s.y.floor_to_i32(), s.z.to_bits()));
        let (x, y, z, w) = (val(v.x), val(v.y), val(v.z), val(v.w));
        assert_eq!(arr3(s), [(x / w + 1.0) / 2.0 * 640.0, (1.0 - (y / w + 1.0) / 2.0) * 360.0, z / w]);
        // the depth of the screen lies from 0 at the near plane to 1 at the far one
        assert!(z / w >= 0.0 && z / w <= 1.0);
    }
    // with no model matrix the mesh stands at the origin of the world, before this camera
    let plain = draw_model_matrix(640, 360, &cam, &model, &Mat4::identity());
    let other = draw_model(640, 360, &cam, &model, Vec3::zero(), Rotation::zero());
    assert_eq!(plain.len(), 12);
    for (a, b) in plain.iter().zip(other.iter()) {
        for (p, q) in [(a.v1, b.v1), (a.v2, b.v2), (a.v3, b.v3)] {
            assert!((p.x - q.x).abs() <= 1 && (p.y - q.y).abs() <= 1);
        }
    }
}

#[test]
fn the_matrix_path_drops_faces_outside_the_depth_range() {
    let model = unit_cube();
    // a mesh behind the camera gives nothing, as on the other path
    let cam = front_camera();
    let behind = compute_model_matrix(v3(0.0, 0.0, -20.0), Quat::identity(), v3(1.0, 1.0, 1.0));
    assert_eq!(draw_model_matrix(640, 360, &cam, &model, &behind).len(), 0);
    assert_eq!(draw_model(640, 360, &cam, &model, v3(0.0, 0.0, -20.0), Rotation::zero()).len(), 0);
    // and so does one beyond the far plane
    let beyond = compute_model_matrix(v3(0.0, 0.0, 2000.0), Quat::identity(), v3(1.0, 1.0, 1.0));
    assert_eq!(draw_model_matrix(640, 360, &cam, &model, &beyond).len(), 0);
    // a camera that looks the other way sees nothing of the mesh at the origin
    let away = camera(0.0, 0.0, -5.0, 0.0, std::f32::consts::PI, std::f32::consts::FRAC_PI_2, 0.1, 1000.0);
    assert_eq!(draw_model_matrix(640, 360, &away, &model, &Mat4::identity()).len(), 0);
    // a face is kept whole or dropped whole: the near plane through the cube keeps the
    // faces that lie behind it, and each keeps the grey of its place among all faces
    let through = camera(0.0, 0.0, -5.0, 0.0, 0.0, std::f32::consts::FRAC_PI_2, 5.0, 1000.0);
    let kept = draw_model_matrix(640, 360, &through, &model, &Mat4::identity());
    let on_the_other_path = draw_model(640, 360, &through, &model, Vec3::zero(), Rotation::zero());
    assert!(kept.len() > 0 && kept.len() < 12);
    assert_eq!(kept.len(), on_the_other_path.len());
    let to_view = compute_model_to_view_matrix(&through, &Mat4::identity());
    let step = 0.8f32 / 12.0;
    let mut c = 1.0f32;
    let mut next = 0;
    for f in 0..12 {
        let inside = (0..3).all(|k| {
            let z = val(to_view.mult_vec4(model.verts[model.faces[3 * f + k]].extend(num(1.0))).z);
            z >= 5.0 && z <= 1000.0
        });
        if inside {
            match kept[next].fill {
                Fill::Shaded(a, _, _) => assert_eq!(a.r.to_bits(), c.to_bits()),
                _ => panic!("the matrix path shades"),
            }
            next += 1;
        }
        c -= step;
    }
    assert_eq!(next, kept.len());
    // the planes themselves count as inside
    let on_the_plane = camera(0.0, 0.0, -5.0, 0.0, 0.0, std::f32::consts::FRAC_PI_2, 4.5, 5.5);
    assert_eq!(draw_model_matrix(640, 360, &on_the_plane, &model, &Mat4::identity()).len(), 12);
}

#[test]
fn projection_view_and_model_compose_in_that_order() {
    let cam = camera(1.0, 2.0, -6.0, 0.1, -0.2, 1.3, 0.1, 1000.0);
    let half = angle(val(Quat::half_angle(num(0.6))));
    let model = compute_model_matrix(v3(0.5, 0.0, 1.0), Quat::from_rotation_y(num(0.6), half), v3(1.0, 2.0, 1.0));
    let view = compute_view_matrix(cam.translation, cam.trig.neg_yaw, cam.trig.neg_pitch);
    let projection = compute_perspective_proj_matrix(&cam, 640, 360);
    let all = projection.mult_mat4(&view.mult_mat4(&model));
    let v = v3(0.25, -0.5, 0.75).extend(num(1.0));
    let step = projection.mult_vec4(view.mult_vec4(model.mult_vec4(v)));
    let once = all.mult_vec4(v);
    for (a, b) in [once.x, once.y, once.z, once.w].iter().zip([step.x, step.y, step.z, step.w].iter()) {
        assert!((val(*a) - val(*b)).abs() <= 1e-4 * (1.0 + val(*b).abs()));
    }
}

#[test]
fn the_box_of_a_model_is_drawn_as_twelve_wire_triangles() {
    let cam = front_camera();
    let obb = compute_obb(&unit_cube());
    let green = Srgb { r: 0, g: 255, b: 0, a: 255 };
    let drawn: Vec<Triangle> = debug_draw_obb(640, 360, &cam, obb, Vec3::zero(), Rotation::zero(), green);
    assert_eq!(drawn.len(), 12);
    let solid = draw_model(640, 360, &cam, &unit_cube(), Vec3::zero(), Rotation::zero());
    for (w, s) in drawn.iter().zip(solid.iter()) {
        assert_eq!([pixel(w.v1), pixel(w.v2), pixel(w.v3)], [pixel(s.v1), pixel(s.v2), pixel(s.v3)]);
        match w.fill {
            Fill::Wire(c) => assert_eq!(c, green),
            _ => panic!("a box is drawn in wire"),
        }
    }
    assert_eq!(debug_draw_obb(640, 360, &cam, obb, v3(0.0, 0.0, -20.0), Rotation::zero(), green).len(), 0);
    let c = obb_corners(obb, Vec3::zero(), Rotation::zero());
    assert_eq!(draw_wire_box(640, 360, &cam, &c, green).len(), 12);
    let t = box_triangles(&c);
    for k in 0..36 {
        assert_eq!(arr3(t[k]), arr3(c[BOX[k]]));
    }
}

#[test]
fn a_box_with_a_corner_in_the_pyramid_of_the_view_is_seen() {
    let mut state = 0x5772_1566_4901_5329u64;
    let mut seen = 0;
    let mut behind = 0;
    for _ in 0..3_000 {
        let mut draw = |range: f32| {
            state ^= state << 13;
            state ^= state >> 7;
            state ^= state << 17;
            ((state >> 40) as f32 / (1u64 << 24) as f32 * 2.0 - 1.0) * range
        };
        let cam = camera(draw(5.0), draw(5.0), draw(5.0), draw(1.0), draw(3.0), 0.5 + draw(0.4).abs(), 0.1, 50.0);
        let lo = [draw(20.0), draw(20.0), draw(20.0)];
        let obb = Obb {
            min: v3(lo[0], lo[1], lo[2]),
            max: v3(lo[0] + draw(4.0).abs(), lo[1] + draw(4.0).abs(), lo[2] + draw(4.0).abs()),
        };
        let at = v3(draw(3.0), draw(3.0), draw(3.0));
        let scale = num(1.0).div(cam.trig.half_fov_tan);
        let mut in_view = false;
        let mut in_depth = false;
        for corner in obb_corners(obb, at, Rotation::zero()) {
            let c = vertex_world_to_camera_space(&cam, corner);
            let depth = val(c.z) >= 0.1 && val(c.z) <= 50.0;
            let pyramid =
                val(c.x.mul(scale)).abs() <= val(c.z).abs() && val(c.y.mul(scale)).abs() <= val(c.z).abs();
            in_view = in_view || (depth && pyramid);
            in_depth = in_depth || depth;
        }
        let got = obb_visible(640, 360, &cam, obb, at, Rotation::zero());
        if in_view {
            assert!(got);
            seen += 1;
        }
        if !in_depth {
            assert!(!got);
            behind += 1;
        }
    }
    assert!(seen > 100 && behind > 100, "{} {}", seen, behind);
}
