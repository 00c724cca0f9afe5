//! From the world to the camera, from the camera to the clip square, from there to the
//! screen; and the matrices that do the same.

use crate::camera::Camera;
use crate::math::angle::{Angle, Rotation};
use crate::math::mat::Mat4;
use crate::math::quat::Quat;
use crate::math::vec::{Vec2, Vec3, Vec4};
use crate::single::{F32, ONE_BITS, TWO_BITS};
use crate::single_laws::{
    lemma_add_cancels, lemma_add_respects_equal, lemma_add_zero, lemma_halves, lemma_mul_neg, lemma_mul_one,
    lemma_mul_zero, lemma_neg_respects_equal, lemma_zero_div, lemma_zero_keeps,
};
use vstd::prelude::*;

verus! {

/// A model matrix: the quaternion's rotation with the first three columns of the first
/// three rows scaled by `scale.x`, `scale.y` and `scale.z`, and the translation written
/// into the fourth column.
pub open spec fn compute_model_matrix_spec(translation: Vec3, rotation: Quat, scale: Vec3) -> Mat4 {
    let m = rotation.compute_mat4_spec();
    Mat4 {
        r1: Vec4 {
            x: m.r1.x.mul_spec(scale.x),
            y: m.r1.y.mul_spec(scale.y),
            z: m.r1.z.mul_spec(scale.z),
            w: translation.x,
        },
        r2: Vec4 {
            x: m.r2.x.mul_spec(scale.x),
            y: m.r2.y.mul_spec(scale.y),
            z: m.r2.z.mul_spec(scale.z),
            w: translation.y,
        },
        r3: Vec4 {
            x: m.r3.x.mul_spec(scale.x),
            y: m.r3.y.mul_spec(scale.y),
            z: m.r3.z.mul_spec(scale.z),
            w: translation.z,
        },
        r4: m.r4,
    }
}

/// The matrix that scales, then rotates, then translates.
pub fn compute_model_matrix(translation: Vec3, rotation: Quat, scale: Vec3) -> (r: Mat4)
    ensures
        r == compute_model_matrix_spec(translation, rotation, scale),
{
    let m = rotation.compute_mat4();
    Mat4 {
        r1: Vec4 {
            x: m.r1.x.mul(scale.x),
            y: m.r1.y.mul(scale.y),
            z: m.r1.z.mul(scale.z),
            w: translation.x,
        },
        r2: Vec4 {
            x: m.r2.x.mul(scale.x),
            y: m.r2.y.mul(scale.y),
            z: m.r2.z.mul(scale.z),
            w: translation.y,
        },
        r3: Vec4 {
            x: m.r3.x.mul(scale.x),
            y: m.r3.y.mul(scale.y),
            z: m.r3.z.mul(scale.z),
            w: translation.z,
        },
        r4: m.r4,
    }
}

/// The x axis of the camera in the world, from the sine and cosine of the yaw negated:
/// `(ycos, 0, ysin)`.
pub open spec fn view_x_axis(yaw: Angle) -> Vec3 {
    Vec3 { x: yaw.cos, y: F32 { bits: 0 }, z: yaw.sin }
}

/// The y axis of the camera in the world: `(ysin psin, pcos, -(ycos psin))`.
pub open spec fn view_y_axis(yaw: Angle, pitch: Angle) -> Vec3 {
    Vec3 { x: yaw.sin.mul_spec(pitch.sin), y: pitch.cos, z: yaw.cos.mul_spec(pitch.sin).neg_spec() }
}

/// The z axis of the camera in the world, the way it looks: `(-(ysin pcos), psin, ycos pcos)`.
pub open spec fn view_z_axis(yaw: Angle, pitch: Angle) -> Vec3 {
    Vec3 { x: yaw.sin.mul_spec(pitch.cos).neg_spec(), y: pitch.sin, z: yaw.cos.mul_spec(pitch.cos) }
}

/// A view matrix: rows `(x axis, -(x axis . t))`, `(y axis, -(y axis . t))`,
/// `(z axis, -(z axis . t))` and `(0, 0, 0, 1)`, with `t` the camera's position. It takes
/// a point of the world into the camera space of `vertex_world_to_camera_space`, in
/// which the camera looks down +z: the rows hold the factors by which that function
/// multiplies the three components of the point less the camera's position.
pub open spec fn compute_view_matrix_spec(translation: Vec3, yaw: Angle, pitch: Angle) -> Mat4 {
    let xaxis = view_x_axis(yaw);
    let yaxis = view_y_axis(yaw, pitch);
    let zaxis = view_z_axis(yaw, pitch);
    let zero = F32 { bits: 0 };
    Mat4 {
        r1: Vec4 { x: xaxis.x, y: xaxis.y, z: xaxis.z, w: xaxis.dot_spec(translation).neg_spec() },
        r2: Vec4 { x: yaxis.x, y: yaxis.y, z: yaxis.z, w: yaxis.dot_spec(translation).neg_spec() },
        r3: Vec4 { x: zaxis.x, y: zaxis.y, z: zaxis.z, w: zaxis.dot_spec(translation).neg_spec() },
        r4: Vec4 { x: zero, y: zero, z: zero, w: F32 { bits: ONE_BITS } },
    }
}

/// The view matrix of a camera at `translation`: from the world into the camera space
/// in which the camera looks down +z. The two angles are the camera's yaw and pitch
/// negated, so that the matrix undoes the camera's own turn: about y first, then about x.
pub fn compute_view_matrix(translation: Vec3, yaw: Angle, pitch: Angle) -> (r: Mat4)
    ensures
        r == compute_view_matrix_spec(translation, yaw, pitch),
{
    let xaxis = Vec3::new(yaw.cos, F32 { bits: 0 }, yaw.sin);
    let yaxis = Vec3::new(yaw.sin.mul(pitch.sin), pitch.cos, yaw.cos.mul(pitch.sin).neg());
    let zaxis = Vec3::new(yaw.sin.mul(pitch.cos).neg(), pitch.sin, yaw.cos.mul(pitch.cos));
    Mat4 {
        r1: xaxis.extend(xaxis.dot(translation).neg()),
        r2: yaxis.extend(yaxis.dot(translation).neg()),
        r3: zaxis.extend(zaxis.dot(translation).neg()),
        r4: Vec4::w(F32 { bits: ONE_BITS }),
    }
}

/// Whether an angle is one of no turn as the transforms read it: its sine is a zero and its
/// cosine is one.
pub open spec fn unturned(a: Angle) -> bool {
    a.sin.zero() && a.cos.bits == ONE_BITS
}

/// Whether all three components are finite numbers.
pub open spec fn finite3(v: Vec3) -> bool {
    v.x.finite() && v.y.finite() && v.z.finite()
}

/// Whether `e` is the unit vector along axis `k`, up to the signs of its zeros.
pub open spec fn is_axis(e: Vec3, k: int) -> bool {
    &&& if k == 0 {
        e.x.bits == ONE_BITS
    } else {
        e.x.zero()
    }
    &&& if k == 1 {
        e.y.bits == ONE_BITS
    } else {
        e.y.zero()
    }
    &&& if k == 2 {
        e.z.bits == ONE_BITS
    } else {
        e.z.zero()
    }
}

/// Component `k` of a vector.
pub open spec fn component(v: Vec3, k: int) -> F32 {
    if k == 0 {
        v.x
    } else if k == 1 {
        v.y
    } else {
        v.z
    }
}

/// The dot product of a unit vector along an axis with a vector of finite numbers is the
/// component along that axis.
pub proof fn lemma_axis_picks(e: Vec3, v: Vec3, k: int)
    requires
        0 <= k < 3,
        is_axis(e, k),
        finite3(v),
    ensures
        e.dot_spec(v).equal(component(v, k)),
{
    if k == 0 {
        lemma_mul_one(v.x);
    } else {
        lemma_mul_zero(v.x, e.x);
    }
    if k == 1 {
        lemma_mul_one(v.y);
    } else {
        lemma_mul_zero(v.y, e.y);
    }
    if k == 2 {
        lemma_mul_one(v.z);
    } else {
        lemma_mul_zero(v.z, e.z);
    }
    let a = e.x.mul_spec(v.x);
    let b = e.y.mul_spec(v.y);
    let c = e.z.mul_spec(v.z);
    if k == 0 {
        lemma_zero_keeps(a, v.x, b);
        lemma_zero_keeps(a.add_spec(b), v.x, c);
    } else if k == 1 {
        lemma_zero_keeps(b, v.y, a);
        lemma_zero_keeps(a.add_spec(b), v.y, c);
    } else {
        lemma_add_zero(a, b);
        lemma_zero_keeps(c, v.z, a.add_spec(b));
    }
}

/// The axes of a camera that is not turned are the axes of the world.
pub proof fn lemma_unturned_axes(yaw: Angle, pitch: Angle)
    requires
        unturned(yaw),
        unturned(pitch),
    ensures
        is_axis(view_x_axis(yaw), 0),
        is_axis(view_y_axis(yaw, pitch), 1),
        is_axis(view_z_axis(yaw, pitch), 2),
{
    let one = F32 { bits: ONE_BITS };
    lemma_mul_zero(yaw.sin, pitch.sin);
    lemma_mul_one(pitch.sin);
    lemma_mul_one(yaw.sin);
    lemma_mul_one(one);
}

/// The view matrix of a camera that is not turned moves the world by the camera's position
/// and no more: its rows are the axes of the world, each with the camera's coordinate
/// along it negated, where the position is of finite numbers.
pub proof fn lemma_unturned_view_matrix(translation: Vec3, yaw: Angle, pitch: Angle)
    requires
        unturned(yaw),
        unturned(pitch),
        finite3(translation),
    ensures
        ({
            let m = compute_view_matrix_spec(translation, yaw, pitch);
            &&& is_axis(Vec3 { x: m.r1.x, y: m.r1.y, z: m.r1.z }, 0)
            &&& is_axis(Vec3 { x: m.r2.x, y: m.r2.y, z: m.r2.z }, 1)
            &&& is_axis(Vec3 { x: m.r3.x, y: m.r3.y, z: m.r3.z }, 2)
            &&& m.r1.w.equal(translation.x.neg_spec())
            &&& m.r2.w.equal(translation.y.neg_spec())
            &&& m.r3.w.equal(translation.z.neg_spec())
            &&& m.r4 == Mat4::identity_spec().r4
        }),
{
    lemma_unturned_axes(yaw, pitch);
    lemma_axis_picks(view_x_axis(yaw), translation, 0);
    lemma_axis_picks(view_y_axis(yaw, pitch), translation, 1);
    lemma_axis_picks(view_z_axis(yaw, pitch), translation, 2);
}

/// The view matrix and the way of a vertex into camera space agree for a camera that is
/// not turned: the matrix takes a point of the world, with 1 for w, to the numbers that
/// `vertex_world_to_camera_space` gives, and to 1 for w. The point, the camera's position
/// and their difference are of finite numbers.
pub proof fn lemma_unturned_view_agrees(camera: Camera, v: Vec3)
    requires
        unturned(camera.trig.neg_yaw),
        unturned(camera.trig.neg_pitch),
        finite3(camera.translation),
        finite3(v),
        finite3(v.sub_spec(camera.translation)),
    ensures
        ({
            let m = compute_view_matrix_spec(camera.translation, camera.trig.neg_yaw, camera.trig.neg_pitch);
            let by_matrix = m.mult_vec4_spec(Vec4 { x: v.x, y: v.y, z: v.z, w: F32 { bits: ONE_BITS } });
            let direct = vertex_world_to_camera_space_spec(camera, v);
            &&& by_matrix.x.equal(direct.x)
            &&& by_matrix.y.equal(direct.y)
            &&& by_matrix.z.equal(direct.z)
            &&& by_matrix.w.bits == ONE_BITS
            &&& direct.equal(v.sub_spec(camera.translation))
        }),
{
    let one = F32 { bits: ONE_BITS };
    let zero = F32 { bits: 0 };
    let t = camera.translation;
    let yaw = camera.trig.neg_yaw;
    let pitch = camera.trig.neg_pitch;
    let m = compute_view_matrix_spec(t, yaw, pitch);
    let d = v.sub_spec(t);
    lemma_unturned_view_matrix(t, yaw, pitch);
    // by the matrix: each row picks a component of the point and adds the camera's negated
    lemma_axis_picks(view_x_axis(yaw), v, 0);
    lemma_axis_picks(view_y_axis(yaw, pitch), v, 1);
    lemma_axis_picks(view_z_axis(yaw, pitch), v, 2);
    lemma_mul_one(m.r1.w);
    lemma_mul_one(m.r2.w);
    lemma_mul_one(m.r3.w);
    lemma_add_respects_equal(view_x_axis(yaw).dot_spec(v), v.x, m.r1.w.mul_spec(one), t.x.neg_spec());
    lemma_add_respects_equal(view_y_axis(yaw, pitch).dot_spec(v), v.y, m.r2.w.mul_spec(one), t.y.neg_spec());
    lemma_add_respects_equal(view_z_axis(yaw, pitch).dot_spec(v), v.z, m.r3.w.mul_spec(one), t.z.neg_spec());
    // the last row
    lemma_mul_zero(v.x, zero);
    lemma_mul_zero(v.y, zero);
    lemma_mul_zero(v.z, zero);
    lemma_mul_one(one);
    lemma_add_zero(zero.mul_spec(v.x), zero.mul_spec(v.y));
    lemma_add_zero(zero.mul_spec(v.x).add_spec(zero.mul_spec(v.y)), zero.mul_spec(v.z));
    lemma_add_zero(one, zero.mul_spec(v.x).add_spec(zero.mul_spec(v.y)).add_spec(zero.mul_spec(v.z)));
    // directly: a turn by nothing about y, then about x
    lemma_mul_one(d.x);
    lemma_mul_one(d.z);
    lemma_mul_zero(d.z, yaw.sin);
    lemma_mul_zero(d.x.neg_spec(), yaw.sin);
    lemma_zero_keeps(d.x.mul_spec(yaw.cos), d.x, d.z.mul_spec(yaw.sin));
    lemma_zero_keeps(d.z.mul_spec(yaw.cos), d.z, d.x.neg_spec().mul_spec(yaw.sin));
    let turned = d.rotate_y_spec(yaw);
    lemma_mul_one(turned.y);
    lemma_mul_one(turned.z);
    lemma_mul_zero(turned.z, pitch.sin);
    lemma_mul_zero(turned.y, pitch.sin);
    lemma_zero_keeps(turned.y.mul_spec(pitch.cos), d.y, turned.z.mul_spec(pitch.sin));
    lemma_zero_keeps(turned.z.mul_spec(pitch.cos), d.z, turned.y.mul_spec(pitch.sin));
}

/// A perspective projection: with `h = cos / sin` of half the field of view,
/// `w = h * height / width` and `r = farz / (nearz - farz)`, the rows are `(w, 0, 0, 0)`,
/// `(0, h, 0, 0)`, `(0, 0, r, r * nearz)` and `(0, 0, -1, 0)`. It takes a camera space in
/// which the camera looks down -z: the w it gives is the z negated, a point at
/// `z = -nearz` gets the depth 0, and one at `z = -farz` the depth 1 but for rounding.
/// That is not the camera space of the view matrix, in which the camera looks down +z:
/// `compute_model_to_clip_matrix` flips the z between the two.
pub open spec fn compute_perspective_proj_matrix_spec(camera: Camera, width: usize, height: usize) -> Mat4 {
    let zero = F32 { bits: 0 };
    let h = camera.trig.half_fov.cos.div_spec(camera.trig.half_fov.sin);
    let w = h.mul_spec(F32::from_nat_spec(height as nat)).div_spec(F32::from_nat_spec(width as nat));
    let r = camera.farz.div_spec(camera.nearz.sub_spec(camera.farz));
    Mat4 {
        r1: Vec4 { x: w, y: zero, z: zero, w: zero },
        r2: Vec4 { x: zero, y: h, z: zero, w: zero },
        r3: Vec4 { x: zero, y: zero, z: r, w: r.mul_spec(camera.nearz) },
        r4: Vec4 { x: zero, y: zero, z: F32 { bits: 0xbf80_0000 }, w: zero },
    }
}

/// The perspective projection of a camera onto a screen of `width` by `height`, from the
/// camera space in which the camera looks down -z.
pub fn compute_perspective_proj_matrix(camera: &Camera, width: usize, height: usize) -> (r: Mat4)
    requires
        camera.trig_matches(),
    ensures
        r == compute_perspective_proj_matrix_spec(*camera, width, height),
{
    let zero = F32 { bits: 0 };
    let h = camera.trig.half_fov.cos.div(camera.trig.half_fov.sin);
    let w = h.mul(F32::from_usize(height)).div(F32::from_usize(width));
    let r = camera.farz.div(camera.nearz.sub(camera.farz));
    Mat4 {
        r1: Vec4::new(w, zero, zero, zero),
        r2: Vec4::new(zero, h, zero, zero),
        r3: Vec4::new(zero, zero, r, r.mul(camera.nearz)),
        r4: Vec4::new(zero, zero, F32 { bits: 0xbf80_0000 }, zero),
    }
}

/// The matrix from a model into camera space: `view * model`, into the camera space of
/// the view matrix, in which the camera looks down +z and z is the depth.
pub open spec fn compute_model_to_view_matrix_spec(camera: Camera, model: Mat4) -> Mat4 {
    compute_view_matrix_spec(camera.translation, camera.trig.neg_yaw, camera.trig.neg_pitch).mult_mat4_spec(model)
}

/// The one matrix that takes a vertex of a model into camera space: the model matrix,
/// then the camera's view.
pub fn compute_model_to_view_matrix(camera: &Camera, model: &Mat4) -> (r: Mat4)
    requires
        camera.trig_matches(),
    ensures
        r == compute_model_to_view_matrix_spec(*camera, *model),
{
    compute_view_matrix(camera.translation, camera.trig.neg_yaw, camera.trig.neg_pitch).mult_mat4(model)
}

/// The view matrix of a camera for the projection: the view matrix with its third row
/// negated, which takes the world into the camera space in which the camera looks down
/// -z.
pub open spec fn view_for_projection_spec(camera: Camera) -> Mat4 {
    let view = compute_view_matrix_spec(camera.translation, camera.trig.neg_yaw, camera.trig.neg_pitch);
    Mat4 {
        r3: Vec4 { x: view.r3.x.neg_spec(), y: view.r3.y.neg_spec(), z: view.r3.z.neg_spec(), w: view.r3.w.neg_spec() },
        ..view
    }
}

/// The matrix from a model to clip coordinates: `projection * (view * model)`, with the
/// view flipped to look down -z as the projection takes it.
pub open spec fn compute_model_to_clip_matrix_spec(camera: Camera, width: usize, height: usize, model: Mat4) -> Mat4 {
    compute_perspective_proj_matrix_spec(camera, width, height).mult_mat4_spec(
        view_for_projection_spec(camera).mult_mat4_spec(model),
    )
}

/// The one matrix that takes a vertex of a model to clip coordinates: the model matrix,
/// then the camera's view, then its projection.
pub fn compute_model_to_clip_matrix(camera: &Camera, width: usize, height: usize, model: &Mat4) -> (r: Mat4)
    requires
        camera.trig_matches(),
    ensures
        r == compute_model_to_clip_matrix_spec(*camera, width, height, *model),
{
    let view = compute_view_matrix(camera.translation, camera.trig.neg_yaw, camera.trig.neg_pitch);
    let flipped = Mat4 {
        r1: view.r1,
        r2: view.r2,
        r3: Vec4::new(view.r3.x.neg(), view.r3.y.neg(), view.r3.z.neg(), view.r3.w.neg()),
        r4: view.r4,
    };
    let projection = compute_perspective_proj_matrix(camera, width, height);
    projection.mult_mat4(&flipped.mult_mat4(model))
}

/// The projection takes the near plane to the depth 0: a point at `z = -nearz` of the
/// camera space that looks down -z gets a clip z of zero and a clip w equal to `nearz`,
/// so that its depth, the one divided by the other, is zero. The near plane is not at
/// zero, and `r * nearz` of the matrix is a finite number.
pub proof fn lemma_near_plane_has_depth_zero(camera: Camera, width: usize, height: usize, x: F32, y: F32)
    requires
        x.finite(),
        y.finite(),
        camera.nearz.finite() && !camera.nearz.zero(),
        camera.farz.div_spec(camera.nearz.sub_spec(camera.farz)).mul_spec(camera.nearz).finite(),
    ensures
        ({
            let p = Vec4 { x, y, z: camera.nearz.neg_spec(), w: F32 { bits: ONE_BITS } };
            let clip = compute_perspective_proj_matrix_spec(camera, width, height).mult_vec4_spec(p);
            &&& clip.z.zero()
            &&& clip.w.equal(camera.nearz)
            &&& clip.z.div_spec(clip.w).zero()
        }),
{
    let zero = F32 { bits: 0 };
    let one = F32 { bits: ONE_BITS };
    let n = camera.nearz;
    let r = camera.farz.div_spec(camera.nearz.sub_spec(camera.farz));
    let rn = r.mul_spec(n);
    let p = Vec4 { x, y, z: n.neg_spec(), w: one };
    let clip = compute_perspective_proj_matrix_spec(camera, width, height).mult_vec4_spec(p);
    lemma_mul_zero(x, zero);
    lemma_mul_zero(y, zero);
    let nothing = zero.mul_spec(x).add_spec(zero.mul_spec(y));
    lemma_add_zero(zero.mul_spec(x), zero.mul_spec(y));
    // the clip z
    lemma_mul_neg(r, n);
    lemma_add_zero(rn.neg_spec(), nothing);
    lemma_mul_one(rn);
    lemma_add_cancels(rn, nothing.add_spec(rn.neg_spec()));
    // the clip w
    lemma_mul_one(n.neg_spec());
    lemma_mul_neg(one, n.neg_spec());
    lemma_add_zero(n, nothing);
    lemma_mul_zero(one, zero);
    lemma_add_zero(nothing.add_spec(n), zero.mul_spec(one));
    lemma_zero_div(clip.z, clip.w);
}

/// A vertex of a model in the world: turned about z, then y, then x, each only where the
/// angle is not zero, then moved by `translation`.
pub open spec fn transform_vertex_spec(translation: Vec3, pitch_yaw_roll: Rotation, v: Vec3) -> Vec3 {
    let zero = F32 { bits: 0 };
    let a = if pitch_yaw_roll.z.radians.equal(zero) {
        v
    } else {
        v.rotate_z_spec(pitch_yaw_roll.z)
    };
    let b = if pitch_yaw_roll.y.radians.equal(zero) {
        a
    } else {
        a.rotate_y_spec(pitch_yaw_roll.y)
    };
    let c = if pitch_yaw_roll.x.radians.equal(zero) {
        b
    } else {
        b.rotate_x_spec(pitch_yaw_roll.x)
    };
    c.add_spec(translation)
}

/// Places a vertex of a model in the world.
pub fn transform_vertex(translation: Vec3, pitch_yaw_roll: Rotation, v: Vec3) -> (r: Vec3)
    ensures
        r == transform_vertex_spec(translation, pitch_yaw_roll, v),
{
    let zero = F32 { bits: 0 };
    let mut rotated = v;
    if pitch_yaw_roll.z.radians != zero {
        rotated = rotated.rotate_z(pitch_yaw_roll.z);
    }
    if pitch_yaw_roll.y.radians != zero {
        rotated = rotated.rotate_y(pitch_yaw_roll.y);
    }
    if pitch_yaw_roll.x.radians != zero {
        rotated = rotated.rotate_x(pitch_yaw_roll.x);
    }
    rotated.add(translation)
}

/// A vertex as the camera sees it: moved by the camera's position negated, turned about y
/// by the yaw negated, then about x by the pitch negated.
pub open spec fn vertex_world_to_camera_space_spec(camera: Camera, v: Vec3) -> Vec3 {
    v.sub_spec(camera.translation).rotate_y_spec(camera.trig.neg_yaw).rotate_x_spec(
        camera.trig.neg_pitch,
    )
}

/// Whether a vertex in camera space lies between the near and the far plane, both
/// counted in.
pub open spec fn in_depth_range(camera: Camera, v: Vec3) -> bool {
    camera.nearz.le_spec(v.z) && v.z.le_spec(camera.farz)
}

/// A vertex as the camera sees it.
pub fn vertex_world_to_camera_space(camera: &Camera, v: Vec3) -> (r: Vec3)
    requires
        camera.trig_matches(),
    ensures
        r == vertex_world_to_camera_space_spec(*camera, v),
{
    v.sub(camera.translation).rotate_y(camera.trig.neg_yaw).rotate_x(camera.trig.neg_pitch)
}

/// A vertex as the camera sees it, or nothing where it lies before the near plane or
/// behind the far one.
pub fn vertex_world_to_camera_space_clipped(camera: &Camera, v: Vec3) -> (r: Option<Vec3>)
    requires
        camera.trig_matches(),
    ensures
        r == if in_depth_range(*camera, vertex_world_to_camera_space_spec(*camera, v)) {
            Some(vertex_world_to_camera_space_spec(*camera, v))
        } else {
            None
        },
{
    let camera_space = vertex_world_to_camera_space(camera, v);
    if camera_space.z.ge(camera.nearz) && camera_space.z.le(camera.farz) {
        Some(camera_space)
    } else {
        None
    }
}

/// A vertex of camera space on the clip square: x and y times `1 / tan(fov / 2)`, divided
/// by z, and x then times `height / width`.
pub open spec fn vertex_camera_to_clip_space_spec(width: usize, height: usize, camera: Camera, v: Vec3) -> Vec2 {
    let fov_scale = (F32 { bits: ONE_BITS }).div_spec(camera.trig.half_fov_tan);
    let proj = (Vec2 { x: v.x, y: v.y }).mul_scalar_spec(fov_scale).div_scalar_spec(v.z);
    Vec2 {
        x: proj.x.mul_spec(F32::from_nat_spec(height as nat).div_spec(F32::from_nat_spec(width as nat))),
        y: proj.y,
    }
}

/// A vertex of camera space on the clip square.
pub fn vertex_camera_to_clip_space(width: usize, height: usize, camera: &Camera, v: Vec3) -> (r: Vec2)
    requires
        camera.trig_matches(),
    ensures
        r == vertex_camera_to_clip_space_spec(width, height, *camera, v),
{
    let fov_scale = (F32 { bits: ONE_BITS }).div(camera.trig.half_fov_tan);
    let proj = v.reduce().mul_scalar(fov_scale).div_scalar(v.z);
    Vec2 { x: proj.x.mul(F32::from_usize(height).div(F32::from_usize(width))), y: proj.y }
}

/// A vertex of camera space on the screen: `x = (clip.x + 1) / 2 * width`,
/// `y = (1 - (clip.y + 1) / 2) * height`, and the depth `z = (v.z - nearz) / farz`.
pub open spec fn vertex_camera_to_screen_space_spec(width: usize, height: usize, camera: Camera, v: Vec3) -> Vec3 {
    let proj = vertex_camera_to_clip_space_spec(width, height, camera, v);
    let one = F32 { bits: ONE_BITS };
    let two = F32 { bits: TWO_BITS };
    Vec3 {
        x: proj.x.add_spec(one).div_spec(two).mul_spec(F32::from_nat_spec(width as nat)),
        y: one.sub_spec(proj.y.add_spec(one).div_spec(two)).mul_spec(F32::from_nat_spec(height as nat)),
        z: v.z.sub_spec(camera.nearz).div_spec(camera.farz),
    }
}

/// A vertex of camera space on the screen, with the origin at the top left.
pub fn vertex_camera_to_screen_space(width: usize, height: usize, camera: &Camera, v: Vec3) -> (r: Vec3)
    requires
        camera.trig_matches(),
    ensures
        r == vertex_camera_to_screen_space_spec(width, height, *camera, v),
{
    let proj = vertex_camera_to_clip_space(width, height, camera, v);
    let one = F32 { bits: ONE_BITS };
    let two = F32 { bits: TWO_BITS };
    Vec3 {
        x: proj.x.add(one).div(two).mul(F32::from_usize(width)),
        y: one.sub(proj.y.add(one).div(two)).mul(F32::from_usize(height)),
        z: v.z.sub(camera.nearz).div(camera.farz),
    }
}

/// A vertex of the world on the screen, whatever its depth.
pub fn vertex_world_to_screen_space(width: usize, height: usize, camera: &Camera, v: Vec3) -> (r: Vec3)
    requires
        camera.trig_matches(),
    ensures
        r == vertex_camera_to_screen_space_spec(
            width,
            height,
            *camera,
            vertex_world_to_camera_space_spec(*camera, v),
        ),
{
    let v = vertex_world_to_camera_space(camera, v);
    vertex_camera_to_screen_space(width, height, camera, v)
}

/// A vertex of the world on the screen, or nothing where it lies outside the depth range.
pub fn vertex_world_to_screen_space_clipped(width: usize, height: usize, camera: &Camera, v: Vec3) -> (r:
    Option<Vec3>)
    requires
        camera.trig_matches(),
    ensures
        r == if in_depth_range(*camera, vertex_world_to_camera_space_spec(*camera, v)) {
            Some(
                vertex_camera_to_screen_space_spec(
                    width,
                    height,
                    *camera,
                    vertex_world_to_camera_space_spec(*camera, v),
                ),
            )
        } else {
            None
        },
{
    match vertex_world_to_camera_space_clipped(camera, v) {
        Some(c) => Some(vertex_camera_to_screen_space(width, height, camera, c)),
        None => None,
    }
}

/// A triangle as the camera sees it, where all three vertices lie in the depth range.
pub open spec fn triangle_world_to_camera_space_clipped_spec(camera: Camera, v1: Vec3, v2: Vec3, v3: Vec3) -> Option<
    (Vec3, Vec3, Vec3),
> {
    let c1 = vertex_world_to_camera_space_spec(camera, v1);
    let c2 = vertex_world_to_camera_space_spec(camera, v2);
    let c3 = vertex_world_to_camera_space_spec(camera, v3);
    if in_depth_range(camera, c1) && in_depth_range(camera, c2) && in_depth_range(camera, c3) {
        Some((c1, c2, c3))
    } else {
        None
    }
}

/// A triangle as the camera sees it, or nothing where one of its vertices lies outside
/// the depth range: a triangle is kept whole or dropped whole.
pub fn triangle_world_to_camera_space_clipped(camera: &Camera, v1: Vec3, v2: Vec3, v3: Vec3) -> (r: Option<
    (Vec3, Vec3, Vec3),
>)
    requires
        camera.trig_matches(),
    ensures
        r == triangle_world_to_camera_space_clipped_spec(*camera, v1, v2, v3),
{
    match vertex_world_to_camera_space_clipped(camera, v1) {
        Some(c1) => match vertex_world_to_camera_space_clipped(camera, v2) {
            Some(c2) => match vertex_world_to_camera_space_clipped(camera, v3) {
                Some(c3) => Some((c1, c2, c3)),
                None => None,
            },
            None => None,
        },
        None => None,
    }
}

/// A triangle of camera space on the screen, vertex by vertex.
pub fn triangle_camera_to_screen_space(
    width: usize,
    height: usize,
    camera: &Camera,
    v1: Vec3,
    v2: Vec3,
    v3: Vec3,
) -> (r: (Vec3, Vec3, Vec3))
    requires
        camera.trig_matches(),
    ensures
        r.0 == vertex_camera_to_screen_space_spec(width, height, *camera, v1),
        r.1 == vertex_camera_to_screen_space_spec(width, height, *camera, v2),
        r.2 == vertex_camera_to_screen_space_spec(width, height, *camera, v3),
{
    (
        vertex_camera_to_screen_space(width, height, camera, v1),
        vertex_camera_to_screen_space(width, height, camera, v2),
        vertex_camera_to_screen_space(width, height, camera, v3),
    )
}

/// A triangle of the world on the screen, where all three vertices lie in the depth
/// range.
pub open spec fn triangle_world_to_screen_space_clipped_spec(
    width: usize,
    height: usize,
    camera: Camera,
    v1: Vec3,
    v2: Vec3,
    v3: Vec3,
) -> Option<(Vec3, Vec3, Vec3)> {
    match triangle_world_to_camera_space_clipped_spec(camera, v1, v2, v3) {
        Some(c) => Some(
            (
                vertex_camera_to_screen_space_spec(width, height, camera, c.0),
                vertex_camera_to_screen_space_spec(width, height, camera, c.1),
                vertex_camera_to_screen_space_spec(width, height, camera, c.2),
            ),
        ),
        None => None,
    }
}

/// A triangle of the world on the screen, or nothing where one of its vertices lies
/// outside the depth range.
pub fn triangle_world_to_screen_space_clipped(
    width: usize,
    height: usize,
    camera: &Camera,
    v1: Vec3,
    v2: Vec3,
    v3: Vec3,
) -> (r: Option<(Vec3, Vec3, Vec3)>)
    requires
        camera.trig_matches(),
    ensures
        r == triangle_world_to_screen_space_clipped_spec(width, height, *camera, v1, v2, v3),
{
    match triangle_world_to_camera_space_clipped(camera, v1, v2, v3) {
        Some(c) => Some(triangle_camera_to_screen_space(width, height, camera, c.0, c.1, c.2)),
        None => None,
    }
}

/// A point straight ahead lands in the middle of the screen: a point on the camera's
/// axis, at a depth that is a finite number and not zero, has the screen coordinates
/// `0.5 * width` and `0.5 * height`, where the scale of the field of view and the aspect
/// of the screen are finite numbers. The x and y of the point are zeros of either sign.
pub proof fn lemma_axis_maps_to_the_middle(width: usize, height: usize, camera: Camera, on_axis: Vec3)
    requires
        on_axis.x.zero(),
        on_axis.y.zero(),
        on_axis.z.finite() && !on_axis.z.zero(),
        (F32 { bits: ONE_BITS }).div_spec(camera.trig.half_fov_tan).finite(),
        F32::from_nat_spec(height as nat).div_spec(F32::from_nat_spec(width as nat)).finite(),
    ensures
        ({
            let screen = vertex_camera_to_screen_space_spec(width, height, camera, on_axis);
            let half = F32 { bits: 0x3f00_0000 };
            &&& screen.x == half.mul_spec(F32::from_nat_spec(width as nat))
            &&& screen.y == half.mul_spec(F32::from_nat_spec(height as nat))
            &&& screen.z == on_axis.z.sub_spec(camera.nearz).div_spec(camera.farz)
        }),
{
    let one = F32 { bits: ONE_BITS };
    let z = on_axis.z;
    let scale = one.div_spec(camera.trig.half_fov_tan);
    let aspect = F32::from_nat_spec(height as nat).div_spec(F32::from_nat_spec(width as nat));
    lemma_mul_zero(scale, on_axis.x);
    lemma_mul_zero(scale, on_axis.y);
    lemma_zero_div(on_axis.x.mul_spec(scale), z);
    lemma_zero_div(on_axis.y.mul_spec(scale), z);
    let at_x = on_axis.x.mul_spec(scale).div_spec(z);
    let at_y = on_axis.y.mul_spec(scale).div_spec(z);
    lemma_mul_zero(aspect, at_x);
    lemma_add_zero(one, at_x.mul_spec(aspect));
    lemma_add_zero(one, at_y);
    lemma_halves();
}

/// What a camera of any turn sees on its axis lands in the middle of the screen: a point
/// of the world whose place in camera space has zeros for x and y and lies in the depth
/// range, at a depth that is not zero, is kept by the clipping and gets the screen
/// coordinates `0.5 * width` and `0.5 * height`. The near and the far plane, the scale of
/// the field of view and the aspect of the screen are finite numbers.
pub proof fn lemma_point_on_the_axis_maps_to_the_middle(width: usize, height: usize, camera: Camera, v: Vec3)
    requires
        vertex_world_to_camera_space_spec(camera, v).x.zero(),
        vertex_world_to_camera_space_spec(camera, v).y.zero(),
        !vertex_world_to_camera_space_spec(camera, v).z.zero(),
        in_depth_range(camera, vertex_world_to_camera_space_spec(camera, v)),
        camera.nearz.finite(),
        camera.farz.finite(),
        (F32 { bits: ONE_BITS }).div_spec(camera.trig.half_fov_tan).finite(),
        F32::from_nat_spec(height as nat).div_spec(F32::from_nat_spec(width as nat)).finite(),
    ensures
        ({
            let c = vertex_world_to_camera_space_spec(camera, v);
            let screen = vertex_camera_to_screen_space_spec(width, height, camera, c);
            let half = F32 { bits: 0x3f00_0000 };
            &&& screen.x == half.mul_spec(F32::from_nat_spec(width as nat))
            &&& screen.y == half.mul_spec(F32::from_nat_spec(height as nat))
            &&& screen.z == c.z.sub_spec(camera.nearz).div_spec(camera.farz)
        }),
{
    let c = vertex_world_to_camera_space_spec(camera, v);
    assert(c.z.finite());
    lemma_axis_maps_to_the_middle(width, height, camera, c);
}

/// For a camera that is not turned, the point straight ahead in the world is on the axis
/// in camera space: a point with the camera's own x and y has zeros for x and y there,
/// and for depth a number equal to the difference of the two z. The point, the camera's
/// position and that difference are of finite numbers.
pub proof fn lemma_unturned_camera_looks_along_z(camera: Camera, v: Vec3)
    requires
        unturned(camera.trig.neg_yaw),
        unturned(camera.trig.neg_pitch),
        finite3(camera.translation),
        finite3(v),
        v.x.equal(camera.translation.x),
        v.y.equal(camera.translation.y),
        v.z.sub_spec(camera.translation.z).finite(),
    ensures
        vertex_world_to_camera_space_spec(camera, v).x.zero(),
        vertex_world_to_camera_space_spec(camera, v).y.zero(),
        vertex_world_to_camera_space_spec(camera, v).z.equal(v.z.sub_spec(camera.translation.z)),
{
    let t = camera.translation;
    lemma_neg_respects_equal(t.x, v.x);
    lemma_neg_respects_equal(t.y, v.y);
    lemma_add_cancels(v.x, t.x.neg_spec());
    lemma_add_cancels(v.y, t.y.neg_spec());
    lemma_unturned_view_agrees(camera, v);
}

} // verus!
