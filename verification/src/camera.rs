//! The camera: where it stands, where it looks, and how keys and the mouse move it.

use crate::double::F64;
use crate::math::angle::Angle;
use crate::math::vec::Vec3;
use crate::model::{draw_wire_box, wire_triangles_spec};
use crate::raster::{box_triangle_indices, Srgb, Triangle};
use crate::single::{F32, HALF_BITS, ONE_BITS};
use vstd::prelude::*;

verus! {

/// Mouse motion to radians: the bits of 0.005.
pub const SENSITIVITY_BITS: u32 = 0x3ba3_d70a;

/// The steepest pitch, a quarter turn: the bits of pi / 2.
pub const MAX_PITCH_BITS: u32 = 0x3fc9_0fdb;

/// The steepest pitch downwards: the bits of -pi / 2.
pub const MIN_PITCH_BITS: u32 = 0xbfc9_0fdb;

/// Units that the camera moves in a second: the bits of 100.
pub const SPEED_BITS: u32 = 0x42c8_0000;

/// The sines, cosines and tangent that the transforms read. The library takes no sine
/// itself: `Camera::trig_radians` gives the four angles, the caller takes their sines and
/// cosines, and `Camera::set_trig` puts them here. Whatever changes `pitch`, `yaw` or
/// `fov` leaves a camera whose `trig` no longer matches, and no transform takes it
/// before the sines are set anew.
#[derive(Clone, Copy, Debug)]
pub struct CameraTrig {
    /// Of the yaw.
    pub yaw: Angle,
    /// Of the yaw negated.
    pub neg_yaw: Angle,
    /// Of the pitch negated.
    pub neg_pitch: Angle,
    /// Of half the field of view.
    pub half_fov: Angle,
    /// The tangent of half the field of view.
    pub half_fov_tan: F32,
}

/// A camera: position, pitch and yaw in radians, the vertical field of view in radians,
/// and the distances of the near and far planes.
#[derive(Clone, Copy, Debug)]
pub struct Camera {
    pub translation: Vec3,
    pub pitch: F32,
    pub yaw: F32,
    pub fov: F32,
    pub nearz: F32,
    pub farz: F32,
    pub trig: CameraTrig,
}

impl Camera {
    /// The four angles whose sines and cosines the transforms read: the yaw, the yaw
    /// negated, the pitch negated, and half the field of view.
    pub open spec fn trig_radians_spec(self) -> (F32, F32, F32, F32) {
        (self.yaw, self.yaw.neg_spec(), self.pitch.neg_spec(), (F32 { bits: HALF_BITS }).mul_spec(self.fov))
    }

    /// Whether `trig` belongs to this camera: its four angles are the yaw, the yaw
    /// negated, the pitch negated and half the field of view of the camera as it is.
    pub open spec fn trig_matches(self) -> bool {
        &&& self.trig.yaw.radians == self.trig_radians_spec().0
        &&& self.trig.neg_yaw.radians == self.trig_radians_spec().1
        &&& self.trig.neg_pitch.radians == self.trig_radians_spec().2
        &&& self.trig.half_fov.radians == self.trig_radians_spec().3
    }

    /// The four angles of which the caller takes the sines and cosines, and of the last
    /// the tangent too: yaw, yaw negated, pitch negated, half the field of view.
    pub fn trig_radians(&self) -> (r: [F32; 4])
        ensures
            r[0] == self.trig_radians_spec().0,
            r[1] == self.trig_radians_spec().1,
            r[2] == self.trig_radians_spec().2,
            r[3] == self.trig_radians_spec().3,
    {
        [self.yaw, self.yaw.neg(), self.pitch.neg(), (F32 { bits: HALF_BITS }).mul(self.fov)]
    }

    /// Sets the sines and cosines anew. `sin_cos` holds sine and cosine of the four
    /// angles of `trig_radians`, in their order, and `half_fov_tan` the tangent of the
    /// last. After this `trig` matches the camera.
    pub fn set_trig(&mut self, sin_cos: [(F32, F32); 4], half_fov_tan: F32)
        ensures
            final(self).trig_matches(),
            *final(self) == (Camera {
                trig: CameraTrig {
                    yaw: Angle { radians: old(self).trig_radians_spec().0, sin: sin_cos[0].0, cos: sin_cos[0].1 },
                    neg_yaw: Angle {
                        radians: old(self).trig_radians_spec().1,
                        sin: sin_cos[1].0,
                        cos: sin_cos[1].1,
                    },
                    neg_pitch: Angle {
                        radians: old(self).trig_radians_spec().2,
                        sin: sin_cos[2].0,
                        cos: sin_cos[2].1,
                    },
                    half_fov: Angle {
                        radians: old(self).trig_radians_spec().3,
                        sin: sin_cos[3].0,
                        cos: sin_cos[3].1,
                    },
                    half_fov_tan,
                },
                ..*old(self)
            }),
    {
        let radians = self.trig_radians();
        self.trig = CameraTrig {
            yaw: Angle { radians: radians[0], sin: sin_cos[0].0, cos: sin_cos[0].1 },
            neg_yaw: Angle { radians: radians[1], sin: sin_cos[1].0, cos: sin_cos[1].1 },
            neg_pitch: Angle { radians: radians[2], sin: sin_cos[2].0, cos: sin_cos[2].1 },
            half_fov: Angle { radians: radians[3], sin: sin_cos[3].0, cos: sin_cos[3].1 },
            half_fov_tan,
        };
    }

    /// Whether `trig` belongs to this camera.
    pub fn has_trig(&self) -> (r: bool)
        ensures
            r == self.trig_matches(),
    {
        let radians = self.trig_radians();
        self.trig.yaw.radians.bits == radians[0].bits && self.trig.neg_yaw.radians.bits == radians[1].bits
            && self.trig.neg_pitch.radians.bits == radians[2].bits && self.trig.half_fov.radians.bits
            == radians[3].bits
    }
}

impl Default for Camera {
    /// A camera at the origin with every number zero, and the sines, cosines and tangent
    /// of its angles: sine 0, cosine 1, tangent 0.
    fn default() -> (r: Camera)
        ensures
            r.translation == Vec3::zero_spec(),
            r.pitch.bits == 0 && r.yaw.bits == 0 && r.fov.bits == 0 && r.nearz.bits == 0 && r.farz.bits == 0,
            r.trig_matches(),
            r.trig.yaw.sin.bits == 0 && r.trig.neg_yaw.sin.bits == 0x8000_0000 && r.trig.neg_pitch.sin.bits
                == 0x8000_0000 && r.trig.half_fov.sin.bits == 0,
            r.trig.yaw.cos.bits == ONE_BITS && r.trig.neg_yaw.cos.bits == ONE_BITS && r.trig.neg_pitch.cos.bits
                == ONE_BITS && r.trig.half_fov.cos.bits == ONE_BITS,
            r.trig.half_fov_tan.bits == 0,
    {
        let zero = F32 { bits: 0 };
        let back = F32 { bits: 0x8000_0000 };
        let one = F32 { bits: ONE_BITS };
        let mut camera = Camera {
            translation: Vec3::zero(),
            pitch: zero,
            yaw: zero,
            fov: zero,
            nearz: zero,
            farz: zero,
            trig: CameraTrig {
                yaw: Angle::zero(),
                neg_yaw: Angle::zero(),
                neg_pitch: Angle::zero(),
                half_fov: Angle::zero(),
                half_fov_tan: zero,
            },
        };
        camera.set_trig([(zero, one), (back, one), (back, one), (zero, one)], zero);
        camera
    }
}

/// Which ways the camera is asked to move.
#[derive(Clone, Copy, Debug, Default, PartialEq, Eq, Structural)]
pub struct CameraController {
    pub left_pressed: bool,
    pub right_pressed: bool,
    pub forward_pressed: bool,
    pub back_pressed: bool,
    pub up_pressed: bool,
    pub down_pressed: bool,
}

/// The keys that move the camera, and every other key.
#[derive(Clone, Copy, Debug, PartialEq, Eq, Structural)]
pub enum Key {
    W,
    S,
    A,
    D,
    Space,
    ShiftLeft,
    Other,
}

/// What the window or the mouse reports.
#[derive(Clone, Copy, Debug)]
pub enum Input {
    /// A key went down or up.
    Key { key: Key, pressed: bool },
    /// The mouse moved by `dx` to the right and `dy` downwards.
    MouseMotion { dx: F64, dy: F64 },
    /// Anything else.
    Other,
}

/// The controller after a key went down or up: the key's flag is `pressed`, the rest
/// stays.
pub open spec fn controller_after_key(c: CameraController, key: Key, pressed: bool) -> CameraController {
    match key {
        Key::W => CameraController { forward_pressed: pressed, ..c },
        Key::S => CameraController { back_pressed: pressed, ..c },
        Key::A => CameraController { left_pressed: pressed, ..c },
        Key::D => CameraController { right_pressed: pressed, ..c },
        Key::Space => CameraController { up_pressed: pressed, ..c },
        Key::ShiftLeft => CameraController { down_pressed: pressed, ..c },
        Key::Other => c,
    }
}

/// The pitch after the mouse moved down by `dy`: `pitch + dy * 0.005`, held between
/// a quarter turn down and a quarter turn up.
pub open spec fn pitch_after_motion(pitch: F32, dy: F64) -> F32 {
    let moved = pitch.add_spec(dy.to_single_spec().mul_spec(F32 { bits: SENSITIVITY_BITS }));
    if moved.lt_spec(F32 { bits: MIN_PITCH_BITS }) {
        F32 { bits: MIN_PITCH_BITS }
    } else if (F32 { bits: MAX_PITCH_BITS }).lt_spec(moved) {
        F32 { bits: MAX_PITCH_BITS }
    } else {
        moved
    }
}

/// The yaw after the mouse moved right by `dx`: `yaw + dx * 0.005`.
pub open spec fn yaw_after_motion(yaw: F32, dx: F64) -> F32 {
    yaw.add_spec(dx.to_single_spec().mul_spec(F32 { bits: SENSITIVITY_BITS }))
}

/// Takes one report into the camera and the controller. A key sets its flag; the mouse
/// turns the camera. The camera's `trig` is left as it was: after the mouse has turned
/// the camera it no longer matches, and `Camera::set_trig` is due before the next
/// transform.
pub fn handle_input(input: Input, camera: &mut Camera, controller: &mut CameraController)
    ensures
        match input {
            Input::Key { key, pressed } => {
                &&& *final(controller) == controller_after_key(*old(controller), key, pressed)
                &&& *final(camera) == *old(camera)
            },
            Input::MouseMotion { dx, dy } => {
                &&& *final(controller) == *old(controller)
                &&& *final(camera) == (Camera {
                    yaw: yaw_after_motion(old(camera).yaw, dx),
                    pitch: pitch_after_motion(old(camera).pitch, dy),
                    ..*old(camera)
                })
            },
            Input::Other => *final(controller) == *old(controller) && *final(camera) == *old(camera),
        },
{
    match input {
        Input::Key { key, pressed } => {
            match key {
                Key::W => {
                    controller.forward_pressed = pressed;
                },
                Key::S => {
                    controller.back_pressed = pressed;
                },
                Key::A => {
                    controller.left_pressed = pressed;
                },
                Key::D => {
                    controller.right_pressed = pressed;
                },
                Key::Space => {
                    controller.up_pressed = pressed;
                },
                Key::ShiftLeft => {
                    controller.down_pressed = pressed;
                },
                Key::Other => {},
            }
        },
        Input::MouseMotion { dx, dy } => {
            let sensitivity = F32 { bits: SENSITIVITY_BITS };
            camera.yaw = camera.yaw.add(dx.to_single().mul(sensitivity));
            camera.pitch = camera.pitch.add(dy.to_single().mul(sensitivity));
            if camera.pitch.lt(F32 { bits: MIN_PITCH_BITS }) {
                camera.pitch = F32 { bits: MIN_PITCH_BITS };
            } else if camera.pitch.gt(F32 { bits: MAX_PITCH_BITS }) {
                camera.pitch = F32 { bits: MAX_PITCH_BITS };
            }
        },
        Input::Other => {},
    }
}

/// One axis of the direction asked for: 1 for the first flag alone, -1 for the second
/// alone, 0 for both or neither. It is `(0 + 1 if plus) - 1 if minus` in binary32.
pub open spec fn axis_intent(plus: bool, minus: bool) -> F32 {
    let up = if plus {
        (F32 { bits: 0 }).add_spec(F32 { bits: ONE_BITS })
    } else {
        F32 { bits: 0 }
    };
    if minus {
        up.sub_spec(F32 { bits: ONE_BITS })
    } else {
        up
    }
}

/// The direction that the controller asks for, in the camera's own axes.
pub open spec fn move_intent(c: CameraController) -> Vec3 {
    Vec3 {
        x: axis_intent(c.right_pressed, c.left_pressed),
        y: axis_intent(c.up_pressed, c.down_pressed),
        z: axis_intent(c.forward_pressed, c.back_pressed),
    }
}

/// The position after `delta` seconds: where a direction is asked for, the position
/// moves by that direction, scaled to length one and then to `100 * delta`, and turned
/// by the yaw.
pub open spec fn translation_after(camera: Camera, c: CameraController, delta: F32) -> Vec3 {
    let intent = move_intent(c);
    if intent.equal(Vec3::zero_spec()) {
        camera.translation
    } else {
        camera.translation.add_spec(
            intent.normalize_or_zero_spec().mul_scalar_spec(
                (F32 { bits: SPEED_BITS }).mul_spec(delta),
            ).rotate_y_spec(camera.trig.yaw),
        )
    }
}

fn axis(plus: bool, minus: bool) -> (r: F32)
    ensures
        r == axis_intent(plus, minus),
{
    let mut v = F32 { bits: 0 };
    if plus {
        v = v.add(F32 { bits: ONE_BITS });
    }
    if minus {
        v = v.sub(F32 { bits: ONE_BITS });
    }
    v
}

/// Moves the camera as the controller asks, for `delta` seconds at 100 units a second.
pub fn update_camera(camera: &mut Camera, controller: &CameraController, delta: F32)
    requires
        old(camera).trig_matches(),
    ensures
        *final(camera) == (Camera {
            translation: translation_after(*old(camera), *controller, delta),
            ..*old(camera)
        }),
        final(camera).trig_matches(),
{
    let speed = (F32 { bits: SPEED_BITS }).mul(delta);
    let intent = Vec3 {
        x: axis(controller.right_pressed, controller.left_pressed),
        y: axis(controller.up_pressed, controller.down_pressed),
        z: axis(controller.forward_pressed, controller.back_pressed),
    };
    if intent != Vec3::zero() {
        camera.translation = camera.translation.add(
            intent.normalize_or_zero().mul_scalar(speed).rotate_y(camera.trig.yaw),
        );
    }
}

/// Corner `k` of the view of a camera, in the world: the four corners of the near
/// plane, then those of the far plane, each `distance * tangent` to the side and up or
/// down, turned about x by the pitch negated and about y by the yaw, and moved to the
/// camera.
pub open spec fn frustum_corner_spec(camera: Camera, tan_half_fov_y: F32, tan_half_fov_x: F32, k: int) -> Vec3 {
    let distance = if k < 4 {
        camera.nearz
    } else {
        camera.farz
    };
    let side = distance.mul_spec(tan_half_fov_x);
    let rise = distance.mul_spec(tan_half_fov_y);
    let corner = Vec3 {
        x: if k == 0 || k == 3 || k == 4 || k == 7 {
            side.neg_spec()
        } else {
            side
        },
        y: if k == 0 || k == 1 || k == 4 || k == 5 {
            rise.neg_spec()
        } else {
            rise
        },
        z: distance,
    };
    corner.rotate_x_spec(camera.trig.neg_pitch).rotate_y_spec(camera.trig.yaw).add_spec(camera.translation)
}

fn frustum_corner(camera: &Camera, distance: F32, side: F32, rise: F32) -> (r: Vec3)
    requires
        camera.trig_matches(),
    ensures
        r == (Vec3 { x: side, y: rise, z: distance }).rotate_x_spec(camera.trig.neg_pitch).rotate_y_spec(
            camera.trig.yaw,
        ).add_spec(camera.translation),
{
    Vec3::new(side, rise, distance).rotate_x(camera.trig.neg_pitch).rotate_y(camera.trig.yaw).add(
        camera.translation,
    )
}

/// The view of one camera as a blue wireframe, seen by another. The two tangents are
/// those of half the field of view, upwards and sideways.
pub fn debug_draw_frustum(
    width: usize,
    height: usize,
    camera_to_debug: &Camera,
    tan_half_fov_y: F32,
    tan_half_fov_x: F32,
    camera_for_view: &Camera,
) -> (r: Vec<Triangle>)
    requires
        camera_to_debug.trig_matches(),
        camera_for_view.trig_matches(),
    ensures
        r@ == wire_triangles_spec(
            width,
            height,
            *camera_for_view,
            Seq::new(
                36,
                |k: int|
                    frustum_corner_spec(
                        *camera_to_debug,
                        tan_half_fov_y,
                        tan_half_fov_x,
                        box_triangle_indices()[k],
                    ),
            ),
            Srgb { r: 0, g: 0, b: 255, a: 255 },
            12,
        ),
{
    let camera = camera_to_debug;
    let near_height = camera.nearz.mul(tan_half_fov_y);
    let near_width = camera.nearz.mul(tan_half_fov_x);
    let far_height = camera.farz.mul(tan_half_fov_y);
    let far_width = camera.farz.mul(tan_half_fov_x);
    let corners = [
        frustum_corner(camera, camera.nearz, near_width.neg(), near_height.neg()),
        frustum_corner(camera, camera.nearz, near_width, near_height.neg()),
        frustum_corner(camera, camera.nearz, near_width, near_height),
        frustum_corner(camera, camera.nearz, near_width.neg(), near_height),
        frustum_corner(camera, camera.farz, far_width.neg(), far_height.neg()),
        frustum_corner(camera, camera.farz, far_width, far_height.neg()),
        frustum_corner(camera, camera.farz, far_width, far_height),
        frustum_corner(camera, camera.farz, far_width.neg(), far_height),
    ];
    proof {
        assert(corners[0] == frustum_corner_spec(*camera, tan_half_fov_y, tan_half_fov_x, 0));
        assert(corners[1] == frustum_corner_spec(*camera, tan_half_fov_y, tan_half_fov_x, 1));
        assert(corners[2] == frustum_corner_spec(*camera, tan_half_fov_y, tan_half_fov_x, 2));
        assert(corners[3] == frustum_corner_spec(*camera, tan_half_fov_y, tan_half_fov_x, 3));
        assert(corners[4] == frustum_corner_spec(*camera, tan_half_fov_y, tan_half_fov_x, 4));
        assert(corners[5] == frustum_corner_spec(*camera, tan_half_fov_y, tan_half_fov_x, 5));
        assert(corners[6] == frustum_corner_spec(*camera, tan_half_fov_y, tan_half_fov_x, 6));
        assert(corners[7] == frustum_corner_spec(*camera, tan_half_fov_y, tan_half_fov_x, 7));
        assert(Seq::new(36, |k: int| corners[box_triangle_indices()[k]]) =~= Seq::new(
            36,
            |k: int|
                frustum_corner_spec(*camera_to_debug, tan_half_fov_y, tan_half_fov_x, box_triangle_indices()[k]),
        ));
    }
    draw_wire_box(width, height, camera_for_view, &corners, Srgb { r: 0, g: 0, b: 255, a: 255 })
}

} // verus!
