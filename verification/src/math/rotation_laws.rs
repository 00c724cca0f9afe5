//! What holds of turns: the matrix of a quaternion about one axis moves a point as the
//! turn about that axis by the sine and cosine that the matrix holds; a turn and the turn
//! back return a vector to within a few rounding errors; and what a turned camera sees
//! straight ahead lands in the middle of the screen.

use crate::bits::lemma_pow2_increases;
use crate::camera::Camera;
use crate::double_errors::{
    doubled_cosine, doubled_sine, lemma_doubled_angle, lemma_squares_are_kept, squares,
};
use crate::error_laws::{
    lemma_equal_wholes, lemma_finite_parts, lemma_order_of_wholes, lemma_sum_error, lemma_product_does_not_grow, lemma_scaled_error, lemma_sizes_order, lemma_sum_is_bounded,
    lemma_whole, size, whole,
};
use crate::math::angle::{Angle, Rotation};
use crate::math::mat::Mat4;
use crate::math::quat::Quat;
use crate::math::transform::{
    finite3, in_depth_range, transform_vertex_spec, vertex_camera_to_screen_space_spec,
    vertex_world_to_camera_space_spec,
};
use crate::math::vec::{Vec3, Vec4};
use crate::screen_errors::{
    lemma_near_axis_is_small_on_clip, lemma_small_on_clip_is_near_middle, near_axis, near_middle, on_axis_within,
};
use crate::single::{F32, ONE_BITS};
use crate::single_laws::{
    lemma_add_commutes, lemma_add_respects_equal, lemma_add_zero, lemma_finite_gives_numbers, lemma_from_nat_order,
    lemma_mul_commutes, lemma_mul_neg, lemma_mul_one, lemma_mul_respects_equal, lemma_mul_zero,
    lemma_neg_respects_equal, lemma_order, lemma_quotient_within_one, lemma_sub_zero, lemma_zero_keeps,
};
use crate::turn_errors::{
    back_within, lemma_plane_turn_and_back, lemma_plane_turn_back_from_near, lemma_plane_turn_is_steady,
    near_unit, steady_within, turned_first, turned_second,
};
use vstd::arithmetic::power2::{lemma2_to64, lemma_pow2_adds, lemma_pow2_pos, pow2};
use vstd::prelude::*;

verus! {

/// Whether a row is the unit row of axis `k`: one at place `k`, zeros of either sign at
/// the other places.
pub open spec fn is_unit_row(row: Vec4, k: int) -> bool {
    &&& if k == 0 {
        row.x.bits == ONE_BITS
    } else {
        row.x.zero()
    }
    &&& if k == 1 {
        row.y.bits == ONE_BITS
    } else {
        row.y.zero()
    }
    &&& if k == 2 {
        row.z.bits == ONE_BITS
    } else {
        row.z.zero()
    }
    &&& if k == 3 {
        row.w.bits == ONE_BITS
    } else {
        row.w.zero()
    }
}

/// Whether a matrix has the shape of a turn about the x axis by an angle of the given
/// sine and cosine: the rows `(1, 0, 0, 0)`, `(0, cos, -sin, 0)`, `(0, sin, cos, 0)` and
/// `(0, 0, 0, 1)`, the zeros of either sign.
pub open spec fn is_turn_about_x(m: Mat4, sin: F32, cos: F32) -> bool {
    &&& sin.finite() && cos.finite()
    &&& is_unit_row(m.r1, 0)
    &&& m.r2.x.zero() && m.r2.y.equal(cos) && m.r2.z.equal(sin.neg_spec()) && m.r2.w.zero()
    &&& m.r3.x.zero() && m.r3.y.equal(sin) && m.r3.z.equal(cos) && m.r3.w.zero()
    &&& is_unit_row(m.r4, 3)
}

/// Whether a matrix has the shape of a turn about the y axis: the rows `(cos, 0, sin, 0)`,
/// `(0, 1, 0, 0)`, `(-sin, 0, cos, 0)` and `(0, 0, 0, 1)`.
pub open spec fn is_turn_about_y(m: Mat4, sin: F32, cos: F32) -> bool {
    &&& sin.finite() && cos.finite()
    &&& m.r1.x.equal(cos) && m.r1.y.zero() && m.r1.z.equal(sin) && m.r1.w.zero()
    &&& is_unit_row(m.r2, 1)
    &&& m.r3.x.equal(sin.neg_spec()) && m.r3.y.zero() && m.r3.z.equal(cos) && m.r3.w.zero()
    &&& is_unit_row(m.r4, 3)
}

/// Whether a matrix has the shape of a turn about the z axis: the rows `(cos, -sin, 0, 0)`,
/// `(sin, cos, 0, 0)`, `(0, 0, 1, 0)` and `(0, 0, 0, 1)`.
pub open spec fn is_turn_about_z(m: Mat4, sin: F32, cos: F32) -> bool {
    &&& sin.finite() && cos.finite()
    &&& m.r1.x.equal(cos) && m.r1.y.equal(sin.neg_spec()) && m.r1.z.zero() && m.r1.w.zero()
    &&& m.r2.x.equal(sin) && m.r2.y.equal(cos) && m.r2.z.zero() && m.r2.w.zero()
    &&& is_unit_row(m.r3, 2)
    &&& is_unit_row(m.r4, 3)
}

/// A point of finite numbers with 1 for w.
pub open spec fn point(v: Vec3) -> Vec4 {
    Vec4 { x: v.x, y: v.y, z: v.z, w: F32 { bits: ONE_BITS } }
}

/// Component `k` of a point.
pub open spec fn coordinate(p: Vec4, k: int) -> F32 {
    if k == 0 {
        p.x
    } else if k == 1 {
        p.y
    } else if k == 2 {
        p.z
    } else {
        p.w
    }
}

/// A unit row picks a coordinate: its dot product with a point of finite numbers equals
/// the coordinate along its axis.
pub proof fn lemma_unit_row_picks(row: Vec4, p: Vec4, k: int)
    requires
        0 <= k < 4,
        is_unit_row(row, k),
        p.x.finite() && p.y.finite() && p.z.finite() && p.w.finite(),
    ensures
        row.dot_spec(p).equal(coordinate(p, k)),
        !coordinate(p, k).zero() ==> row.dot_spec(p) == coordinate(p, k),
{
    let t1 = row.x.mul_spec(p.x);
    let t2 = row.y.mul_spec(p.y);
    let t3 = row.z.mul_spec(p.z);
    let t4 = row.w.mul_spec(p.w);
    lemma_mul_one(p.x);
    lemma_mul_one(p.y);
    lemma_mul_one(p.z);
    lemma_mul_one(p.w);
    if k != 0 {
        lemma_mul_zero(p.x, row.x);
    }
    if k != 1 {
        lemma_mul_zero(p.y, row.y);
    }
    if k != 2 {
        lemma_mul_zero(p.z, row.z);
    }
    if k != 3 {
        lemma_mul_zero(p.w, row.w);
    }
    if k == 0 {
        lemma_add_zero(t1, t2);
    } else {
        lemma_add_zero(t2, t1);
    }
    if k == 2 {
        lemma_add_zero(t3, t1.add_spec(t2));
    } else {
        lemma_add_zero(t1.add_spec(t2), t3);
    }
    if k == 3 {
        lemma_add_zero(t4, t1.add_spec(t2).add_spec(t3));
    } else {
        lemma_add_zero(t1.add_spec(t2).add_spec(t3), t4);
    }
}

/// The dot product of a row of a turn with a point: of the products of the first three
/// places the one at place `k` is a zero, the other two equal `u` and `w` in their
/// order, and the last product is a zero. The sum of the four then equals `u + w`.
proof fn lemma_two_of_four(t1: F32, t2: F32, t3: F32, t4: F32, k: int, u: F32, w: F32)
    requires
        0 <= k < 3,
        !u.add_spec(w).nan(),
        t4.zero(),
        k == 0 ==> t1.zero() && t2.equal(u) && t3.equal(w),
        k == 1 ==> t1.equal(u) && t2.zero() && t3.equal(w),
        k == 2 ==> t1.equal(u) && t2.equal(w) && t3.zero(),
    ensures
        t1.add_spec(t2).add_spec(t3).add_spec(t4).equal(u.add_spec(w)),
{
    if k == 0 {
        lemma_zero_keeps(t2, u, t1);
        lemma_add_respects_equal(t1.add_spec(t2), u, t3, w);
    } else if k == 1 {
        lemma_zero_keeps(t1, u, t2);
        lemma_add_respects_equal(t1.add_spec(t2), u, t3, w);
    } else {
        lemma_add_respects_equal(t1, u, t2, w);
        lemma_zero_keeps(t1.add_spec(t2), u.add_spec(w), t3);
    }
    lemma_zero_keeps(t1.add_spec(t2).add_spec(t3), u.add_spec(w), t4);
}

/// An entry of a matrix that equals `c`, times a coordinate, equals the coordinate
/// times `c`; one that equals `-s` gives the coordinate times `s` with the sign
/// flipped, which is also the flipped coordinate times `s`.
proof fn lemma_entry_times(e: F32, c: F32, x: F32)
    requires
        c.finite(),
        x.finite(),
    ensures
        e.equal(c) ==> e.mul_spec(x).equal(x.mul_spec(c)),
        e.equal(c.neg_spec()) ==> e.mul_spec(x).equal(x.mul_spec(c).neg_spec()),
        x.neg_spec().mul_spec(c) == x.mul_spec(c).neg_spec(),
{
    lemma_finite_gives_numbers(x, c);
    lemma_mul_commutes(c, x);
    lemma_mul_neg(x, c);
    lemma_mul_neg(c, x);
    lemma_mul_commutes(c.neg_spec(), x);
    if e.equal(c) {
        lemma_mul_respects_equal(e, c, x, x);
    }
    if e.equal(c.neg_spec()) {
        lemma_mul_respects_equal(e, c.neg_spec(), x, x);
    }
}

/// A matrix of the shape of a turn about the x axis moves a point as `rotate_x` does by
/// the angle of that sine and cosine: each coordinate of the product equals that of the
/// turned vector, and w stays 1. The vector is of finite numbers, and the turned vector
/// holds no NaN.
pub proof fn lemma_turn_about_x(m: Mat4, turn: Angle, v: Vec3)
    requires
        is_turn_about_x(m, turn.sin, turn.cos),
        finite3(v),
        !v.rotate_x_spec(turn).y.nan(),
        !v.rotate_x_spec(turn).z.nan(),
    ensures
        m.mult_vec4_spec(point(v)).x.equal(v.rotate_x_spec(turn).x),
        m.mult_vec4_spec(point(v)).y.equal(v.rotate_x_spec(turn).y),
        m.mult_vec4_spec(point(v)).z.equal(v.rotate_x_spec(turn).z),
        m.mult_vec4_spec(point(v)).w.bits == ONE_BITS,
{
    let p = point(v);
    let one = F32 { bits: ONE_BITS };
    lemma_unit_row_picks(m.r1, p, 0);
    lemma_unit_row_picks(m.r4, p, 3);
    lemma_mul_zero(one, m.r2.w);
    lemma_mul_zero(one, m.r3.w);
    lemma_mul_zero(v.x, m.r2.x);
    lemma_mul_zero(v.x, m.r3.x);
    lemma_entry_times(m.r2.y, turn.cos, v.y);
    lemma_entry_times(m.r2.z, turn.sin, v.z);
    lemma_entry_times(m.r3.y, turn.sin, v.y);
    lemma_entry_times(m.r3.z, turn.cos, v.z);
    lemma_two_of_four(
        m.r2.x.mul_spec(p.x),
        m.r2.y.mul_spec(p.y),
        m.r2.z.mul_spec(p.z),
        m.r2.w.mul_spec(p.w),
        0,
        v.y.mul_spec(turn.cos),
        v.z.mul_spec(turn.sin).neg_spec(),
    );
    lemma_two_of_four(
        m.r3.x.mul_spec(p.x),
        m.r3.y.mul_spec(p.y),
        m.r3.z.mul_spec(p.z),
        m.r3.w.mul_spec(p.w),
        0,
        v.y.mul_spec(turn.sin),
        v.z.mul_spec(turn.cos),
    );
}

/// A matrix of the shape of a turn about the y axis moves a point as `rotate_y` does by
/// the angle of that sine and cosine. The vector is of finite numbers, and the turned
/// vector holds no NaN.
pub proof fn lemma_turn_about_y(m: Mat4, turn: Angle, v: Vec3)
    requires
        is_turn_about_y(m, turn.sin, turn.cos),
        finite3(v),
        !v.rotate_y_spec(turn).x.nan(),
        !v.rotate_y_spec(turn).z.nan(),
    ensures
        m.mult_vec4_spec(point(v)).x.equal(v.rotate_y_spec(turn).x),
        m.mult_vec4_spec(point(v)).y.equal(v.rotate_y_spec(turn).y),
        m.mult_vec4_spec(point(v)).z.equal(v.rotate_y_spec(turn).z),
        m.mult_vec4_spec(point(v)).w.bits == ONE_BITS,
{
    let p = point(v);
    let one = F32 { bits: ONE_BITS };
    lemma_unit_row_picks(m.r2, p, 1);
    lemma_unit_row_picks(m.r4, p, 3);
    lemma_mul_zero(one, m.r1.w);
    lemma_mul_zero(one, m.r3.w);
    lemma_mul_zero(v.y, m.r1.y);
    lemma_mul_zero(v.y, m.r3.y);
    lemma_entry_times(m.r1.x, turn.cos, v.x);
    lemma_entry_times(m.r1.z, turn.sin, v.z);
    lemma_entry_times(m.r3.x, turn.sin, v.x);
    lemma_entry_times(m.r3.z, turn.cos, v.z);
    lemma_two_of_four(
        m.r1.x.mul_spec(p.x),
        m.r1.y.mul_spec(p.y),
        m.r1.z.mul_spec(p.z),
        m.r1.w.mul_spec(p.w),
        1,
        v.x.mul_spec(turn.cos),
        v.z.mul_spec(turn.sin),
    );
    lemma_two_of_four(
        m.r3.x.mul_spec(p.x),
        m.r3.y.mul_spec(p.y),
        m.r3.z.mul_spec(p.z),
        m.r3.w.mul_spec(p.w),
        1,
        v.x.neg_spec().mul_spec(turn.sin),
        v.z.mul_spec(turn.cos),
    );
}

/// A matrix of the shape of a turn about the z axis moves a point as `rotate_z` does by
/// the angle of that sine and cosine. The vector is of finite numbers, and the turned
/// vector holds no NaN.
pub proof fn lemma_turn_about_z(m: Mat4, turn: Angle, v: Vec3)
    requires
        is_turn_about_z(m, turn.sin, turn.cos),
        finite3(v),
        !v.rotate_z_spec(turn).x.nan(),
        !v.rotate_z_spec(turn).y.nan(),
    ensures
        m.mult_vec4_spec(point(v)).x.equal(v.rotate_z_spec(turn).x),
        m.mult_vec4_spec(point(v)).y.equal(v.rotate_z_spec(turn).y),
        m.mult_vec4_spec(point(v)).z.equal(v.rotate_z_spec(turn).z),
        m.mult_vec4_spec(point(v)).w.bits == ONE_BITS,
{
    let p = point(v);
    let one = F32 { bits: ONE_BITS };
    lemma_unit_row_picks(m.r3, p, 2);
    lemma_unit_row_picks(m.r4, p, 3);
    lemma_mul_zero(one, m.r1.w);
    lemma_mul_zero(one, m.r2.w);
    lemma_mul_zero(v.z, m.r1.z);
    lemma_mul_zero(v.z, m.r2.z);
    lemma_entry_times(m.r1.x, turn.cos, v.x);
    lemma_entry_times(m.r1.y, turn.sin, v.y);
    lemma_entry_times(m.r2.x, turn.sin, v.x);
    lemma_entry_times(m.r2.y, turn.cos, v.y);
    lemma_two_of_four(
        m.r1.x.mul_spec(p.x),
        m.r1.y.mul_spec(p.y),
        m.r1.z.mul_spec(p.z),
        m.r1.w.mul_spec(p.w),
        2,
        v.x.mul_spec(turn.cos),
        v.y.mul_spec(turn.sin).neg_spec(),
    );
    lemma_two_of_four(
        m.r2.x.mul_spec(p.x),
        m.r2.y.mul_spec(p.y),
        m.r2.z.mul_spec(p.z),
        m.r2.w.mul_spec(p.w),
        2,
        v.x.mul_spec(turn.sin),
        v.y.mul_spec(turn.cos),
    );
}

/// Whether the numbers that the matrix of a quaternion about one axis is made of are
/// finite: the scale, the scalar part, the part `live` along the axis, that part times
/// the scale, the two products of this with the scalar part and with `live`, and one
/// less the latter.
pub open spec fn tame(q: Quat, live: F32) -> bool {
    let s = q.matrix_scale_spec();
    let scaled = live.mul_spec(s);
    &&& s.finite()
    &&& live.finite()
    &&& q.0.w.finite()
    &&& scaled.finite()
    &&& q.0.w.mul_spec(scaled).finite()
    &&& live.mul_spec(scaled).finite()
    &&& (F32 { bits: ONE_BITS }).sub_spec(live.mul_spec(scaled)).finite()
}

/// The matrix of a quaternion about the x axis has the shape of a turn about the x axis,
/// with the entry of row 3 and column 2 for the sine and that of row 2 and column 2 for
/// the cosine. The numbers it is made of are finite.
pub proof fn lemma_quat_about_x_is_a_turn(q: Quat)
    requires
        q.0.y.zero(),
        q.0.z.zero(),
        tame(q, q.0.x),
    ensures
        is_turn_about_x(q.compute_mat4_spec(), q.compute_mat4_spec().r3.y, q.compute_mat4_spec().r2.y),
        q.compute_mat4_spec().r3.y.equal(q.0.w.mul_spec(q.0.x.mul_spec(q.matrix_scale_spec()))),
        q.compute_mat4_spec().r2.y.equal(
            (F32 { bits: ONE_BITS }).sub_spec(q.0.x.mul_spec(q.0.x.mul_spec(q.matrix_scale_spec()))),
        ),
{
    let v = q.0;
    let one = F32 { bits: ONE_BITS };
    let s = q.matrix_scale_spec();
    let xs = v.x.mul_spec(s);
    let ys = v.y.mul_spec(s);
    let zs = v.z.mul_spec(s);
    let wx = v.w.mul_spec(xs);
    let wy = v.w.mul_spec(ys);
    let wz = v.w.mul_spec(zs);
    let xx = v.x.mul_spec(xs);
    let xy = v.x.mul_spec(ys);
    let xz = v.x.mul_spec(zs);
    let yy = v.y.mul_spec(ys);
    let yz = v.y.mul_spec(zs);
    let zz = v.z.mul_spec(zs);
    lemma_mul_zero(s, v.y);
    lemma_mul_zero(s, v.z);
    lemma_mul_zero(v.w, ys);
    lemma_mul_zero(v.w, zs);
    lemma_mul_zero(v.x, ys);
    lemma_mul_zero(v.x, zs);
    lemma_mul_zero(v.y, ys);
    lemma_mul_zero(v.y, zs);
    lemma_mul_zero(v.z, zs);
    // the first row and the first column
    lemma_add_zero(yy, zz);
    lemma_sub_zero(one, yy.add_spec(zz));
    lemma_sub_zero(xy, wz);
    lemma_add_zero(xz, wy);
    lemma_add_zero(xy, wz);
    lemma_sub_zero(xz, wy);
    // the two cosines
    lemma_add_zero(xx, zz);
    lemma_add_zero(xx, yy);
    lemma_neg_respects_equal(xx.add_spec(zz), xx);
    lemma_neg_respects_equal(xx.add_spec(yy), xx);
    lemma_add_respects_equal(one, one, xx.add_spec(zz).neg_spec(), xx.neg_spec());
    lemma_add_respects_equal(one, one, xx.add_spec(yy).neg_spec(), xx.neg_spec());
    // the two sines
    lemma_zero_keeps(wx.neg_spec(), wx.neg_spec(), yz);
    lemma_zero_keeps(wx, wx, yz);
    lemma_neg_respects_equal(yz.add_spec(wx), wx);
}

/// The matrix of a quaternion about the y axis has the shape of a turn about the y axis,
/// with the entry of row 1 and column 3 for the sine and that of row 1 and column 1 for
/// the cosine. The numbers it is made of are finite.
pub proof fn lemma_quat_about_y_is_a_turn(q: Quat)
    requires
        q.0.x.zero(),
        q.0.z.zero(),
        tame(q, q.0.y),
    ensures
        is_turn_about_y(q.compute_mat4_spec(), q.compute_mat4_spec().r1.z, q.compute_mat4_spec().r1.x),
        q.compute_mat4_spec().r1.z.equal(q.0.w.mul_spec(q.0.y.mul_spec(q.matrix_scale_spec()))),
        q.compute_mat4_spec().r1.x.equal(
            (F32 { bits: ONE_BITS }).sub_spec(q.0.y.mul_spec(q.0.y.mul_spec(q.matrix_scale_spec()))),
        ),
{
    let v = q.0;
    let one = F32 { bits: ONE_BITS };
    let s = q.matrix_scale_spec();
    let xs = v.x.mul_spec(s);
    let ys = v.y.mul_spec(s);
    let zs = v.z.mul_spec(s);
    let wx = v.w.mul_spec(xs);
    let wy = v.w.mul_spec(ys);
    let wz = v.w.mul_spec(zs);
    let xx = v.x.mul_spec(xs);
    let xy = v.x.mul_spec(ys);
    let xz = v.x.mul_spec(zs);
    let yy = v.y.mul_spec(ys);
    let yz = v.y.mul_spec(zs);
    let zz = v.z.mul_spec(zs);
    lemma_mul_zero(s, v.x);
    lemma_mul_zero(s, v.z);
    lemma_mul_zero(v.w, xs);
    lemma_mul_zero(v.w, zs);
    lemma_mul_zero(v.x, xs);
    lemma_mul_zero(ys, v.x);
    lemma_mul_zero(v.x, zs);
    lemma_mul_zero(v.y, zs);
    lemma_mul_zero(v.z, zs);
    // the second row and the second column
    lemma_add_zero(xx, zz);
    lemma_sub_zero(one, xx.add_spec(zz));
    lemma_sub_zero(xy, wz);
    lemma_add_zero(xy, wz);
    lemma_sub_zero(yz, wx);
    lemma_add_zero(yz, wx);
    // the two cosines
    lemma_add_zero(yy, zz);
    lemma_add_zero(yy, xx);
    lemma_neg_respects_equal(yy.add_spec(zz), yy);
    lemma_neg_respects_equal(xx.add_spec(yy), yy);
    lemma_add_respects_equal(one, one, yy.add_spec(zz).neg_spec(), yy.neg_spec());
    lemma_add_respects_equal(one, one, xx.add_spec(yy).neg_spec(), yy.neg_spec());
    // the two sines
    lemma_zero_keeps(wy.neg_spec(), wy.neg_spec(), xz);
    lemma_zero_keeps(wy, wy, xz);
    lemma_neg_respects_equal(xz.add_spec(wy), wy);
}

/// The matrix of a quaternion about the z axis has the shape of a turn about the z axis,
/// with the entry of row 2 and column 1 for the sine and that of row 1 and column 1 for
/// the cosine. The numbers it is made of are finite.
pub proof fn lemma_quat_about_z_is_a_turn(q: Quat)
    requires
        q.0.x.zero(),
        q.0.y.zero(),
        tame(q, q.0.z),
    ensures
        is_turn_about_z(q.compute_mat4_spec(), q.compute_mat4_spec().r2.x, q.compute_mat4_spec().r1.x),
        q.compute_mat4_spec().r2.x.equal(q.0.w.mul_spec(q.0.z.mul_spec(q.matrix_scale_spec()))),
        q.compute_mat4_spec().r1.x.equal(
            (F32 { bits: ONE_BITS }).sub_spec(q.0.z.mul_spec(q.0.z.mul_spec(q.matrix_scale_spec()))),
        ),
{
    let v = q.0;
    let one = F32 { bits: ONE_BITS };
    let s = q.matrix_scale_spec();
    let xs = v.x.mul_spec(s);
    let ys = v.y.mul_spec(s);
    let zs = v.z.mul_spec(s);
    let wx = v.w.mul_spec(xs);
    let wy = v.w.mul_spec(ys);
    let wz = v.w.mul_spec(zs);
    let xx = v.x.mul_spec(xs);
    let xy = v.x.mul_spec(ys);
    let xz = v.x.mul_spec(zs);
    let yy = v.y.mul_spec(ys);
    let yz = v.y.mul_spec(zs);
    let zz = v.z.mul_spec(zs);
    lemma_mul_zero(s, v.x);
    lemma_mul_zero(s, v.y);
    lemma_mul_zero(v.w, xs);
    lemma_mul_zero(v.w, ys);
    lemma_mul_zero(v.x, xs);
    lemma_mul_zero(v.x, ys);
    lemma_mul_zero(zs, v.x);
    lemma_mul_zero(v.y, ys);
    lemma_mul_zero(zs, v.y);
    // the third row and the third column
    lemma_add_zero(xx, yy);
    lemma_sub_zero(one, xx.add_spec(yy));
    lemma_add_zero(xz, wy);
    lemma_sub_zero(xz, wy);
    lemma_sub_zero(yz, wx);
    lemma_add_zero(yz, wx);
    // the two cosines
    lemma_add_zero(zz, yy);
    lemma_add_zero(zz, xx);
    lemma_neg_respects_equal(yy.add_spec(zz), zz);
    lemma_neg_respects_equal(xx.add_spec(zz), zz);
    lemma_add_respects_equal(one, one, yy.add_spec(zz).neg_spec(), zz.neg_spec());
    lemma_add_respects_equal(one, one, xx.add_spec(zz).neg_spec(), zz.neg_spec());
    // the two sines
    lemma_zero_keeps(wz.neg_spec(), wz.neg_spec(), xy);
    lemma_zero_keeps(wz, wz, xy);
    lemma_neg_respects_equal(xy.add_spec(wz), wz);
}

/// The matrix of a quaternion about the x axis moves a point as `rotate_x` does by the
/// angle whose sine and cosine the matrix holds: each coordinate of the product equals
/// that of the turned vector, and w stays 1. The numbers that the matrix is made of and
/// those of the vector are finite, and the turned vector holds no NaN.
pub proof fn lemma_quat_about_x_turns(q: Quat, turn: Angle, v: Vec3)
    requires
        q.0.y.zero(),
        q.0.z.zero(),
        tame(q, q.0.x),
        turn.sin == q.compute_mat4_spec().r3.y,
        turn.cos == q.compute_mat4_spec().r2.y,
        finite3(v),
        !v.rotate_x_spec(turn).y.nan(),
        !v.rotate_x_spec(turn).z.nan(),
    ensures
        q.compute_mat4_spec().mult_vec4_spec(point(v)).x.equal(v.rotate_x_spec(turn).x),
        q.compute_mat4_spec().mult_vec4_spec(point(v)).y.equal(v.rotate_x_spec(turn).y),
        q.compute_mat4_spec().mult_vec4_spec(point(v)).z.equal(v.rotate_x_spec(turn).z),
        q.compute_mat4_spec().mult_vec4_spec(point(v)).w.bits == ONE_BITS,
{
    lemma_quat_about_x_is_a_turn(q);
    lemma_turn_about_x(q.compute_mat4_spec(), turn, v);
}

/// The matrix of a quaternion about the y axis moves a point as `rotate_y` does by the
/// angle whose sine and cosine the matrix holds: each coordinate of the product equals
/// that of the turned vector, and w stays 1. The numbers that the matrix is made of and
/// those of the vector are finite, and the turned vector holds no NaN.
pub proof fn lemma_quat_about_y_turns(q: Quat, turn: Angle, v: Vec3)
    requires
        q.0.x.zero(),
        q.0.z.zero(),
        tame(q, q.0.y),
        turn.sin == q.compute_mat4_spec().r1.z,
        turn.cos == q.compute_mat4_spec().r1.x,
        finite3(v),
        !v.rotate_y_spec(turn).x.nan(),
        !v.rotate_y_spec(turn).z.nan(),
    ensures
        q.compute_mat4_spec().mult_vec4_spec(point(v)).x.equal(v.rotate_y_spec(turn).x),
        q.compute_mat4_spec().mult_vec4_spec(point(v)).y.equal(v.rotate_y_spec(turn).y),
        q.compute_mat4_spec().mult_vec4_spec(point(v)).z.equal(v.rotate_y_spec(turn).z),
        q.compute_mat4_spec().mult_vec4_spec(point(v)).w.bits == ONE_BITS,
{
    lemma_quat_about_y_is_a_turn(q);
    lemma_turn_about_y(q.compute_mat4_spec(), turn, v);
}

/// The matrix of a quaternion about the z axis moves a point as `rotate_z` does by the
/// angle whose sine and cosine the matrix holds: each coordinate of the product equals
/// that of the turned vector, and w stays 1. The numbers that the matrix is made of and
/// those of the vector are finite, and the turned vector holds no NaN.
pub proof fn lemma_quat_about_z_turns(q: Quat, turn: Angle, v: Vec3)
    requires
        q.0.x.zero(),
        q.0.y.zero(),
        tame(q, q.0.z),
        turn.sin == q.compute_mat4_spec().r2.x,
        turn.cos == q.compute_mat4_spec().r1.x,
        finite3(v),
        !v.rotate_z_spec(turn).x.nan(),
        !v.rotate_z_spec(turn).y.nan(),
    ensures
        q.compute_mat4_spec().mult_vec4_spec(point(v)).x.equal(v.rotate_z_spec(turn).x),
        q.compute_mat4_spec().mult_vec4_spec(point(v)).y.equal(v.rotate_z_spec(turn).y),
        q.compute_mat4_spec().mult_vec4_spec(point(v)).z.equal(v.rotate_z_spec(turn).z),
        q.compute_mat4_spec().mult_vec4_spec(point(v)).w.bits == ONE_BITS,
{
    lemma_quat_about_z_is_a_turn(q);
    lemma_turn_about_z(q.compute_mat4_spec(), turn, v);
}

/// Whether `back` is the angle of `turn` negated as the turns read it: the same cosine,
/// and the sine with the sign flipped.
pub open spec fn is_turn_back(turn: Angle, back: Angle) -> bool {
    back.cos == turn.cos && back.sin == turn.sin.neg_spec()
}

/// A turn about the x axis and the turn back return the vector: x is kept, and y and z
/// come back to within `16 * 2^-24` of their two sizes together, and three units of
/// `2^-149`. The sine and the cosine are those of one angle as nearly as binary32 can
/// say, and the vector, the turned vector and the one that comes back are of finite
/// numbers.
pub proof fn lemma_turn_about_x_and_back(v: Vec3, turn: Angle, back: Angle)
    requires
        is_turn_back(turn, back),
        near_unit(turn.sin, turn.cos),
        finite3(v),
        finite3(v.rotate_x_spec(turn)),
        finite3(v.rotate_x_spec(turn).rotate_x_spec(back)),
    ensures
        v.rotate_x_spec(turn).rotate_x_spec(back).x == v.x,
        back_within(v.rotate_x_spec(turn).rotate_x_spec(back).y, v.y, v.z),
        back_within(v.rotate_x_spec(turn).rotate_x_spec(back).z, v.z, v.y),
{
    lemma_plane_turn_and_back(v.y, v.z, turn.sin, turn.cos);
}

/// A turn about the z axis and the turn back return the vector: z is kept, and x and y
/// come back to within `16 * 2^-24` of their two sizes together, and three units of
/// `2^-149`, under the same conditions.
pub proof fn lemma_turn_about_z_and_back(v: Vec3, turn: Angle, back: Angle)
    requires
        is_turn_back(turn, back),
        near_unit(turn.sin, turn.cos),
        finite3(v),
        finite3(v.rotate_z_spec(turn)),
        finite3(v.rotate_z_spec(turn).rotate_z_spec(back)),
    ensures
        v.rotate_z_spec(turn).rotate_z_spec(back).z == v.z,
        back_within(v.rotate_z_spec(turn).rotate_z_spec(back).x, v.x, v.y),
        back_within(v.rotate_z_spec(turn).rotate_z_spec(back).y, v.y, v.x),
{
    lemma_plane_turn_and_back(v.x, v.y, turn.sin, turn.cos);
}

/// A turn about the y axis is the turn of z and x in their plane.
proof fn lemma_turn_about_y_in_the_plane(v: Vec3, a: Angle)
    requires
        finite3(v),
        a.sin.finite(),
        a.cos.finite(),
    ensures
        v.rotate_y_spec(a).z == turned_first(v.z, v.x, a.sin, a.cos),
        v.rotate_y_spec(a).x == turned_second(v.z, v.x, a.sin, a.cos),
{
    lemma_finite_gives_numbers(v.x, a.sin);
    lemma_mul_neg(v.x, a.sin);
    lemma_add_commutes(v.x.mul_spec(a.sin).neg_spec(), v.z.mul_spec(a.cos));
    lemma_add_commutes(v.x.mul_spec(a.cos), v.z.mul_spec(a.sin));
}

/// A turn about the y axis and the turn back return the vector: y is kept, and x and z
/// come back to within `16 * 2^-24` of their two sizes together, and three units of
/// `2^-149`, under the same conditions.
pub proof fn lemma_turn_about_y_and_back(v: Vec3, turn: Angle, back: Angle)
    requires
        is_turn_back(turn, back),
        near_unit(turn.sin, turn.cos),
        finite3(v),
        finite3(v.rotate_y_spec(turn)),
        finite3(v.rotate_y_spec(turn).rotate_y_spec(back)),
    ensures
        v.rotate_y_spec(turn).rotate_y_spec(back).y == v.y,
        back_within(v.rotate_y_spec(turn).rotate_y_spec(back).x, v.x, v.z),
        back_within(v.rotate_y_spec(turn).rotate_y_spec(back).z, v.z, v.x),
{
    lemma_turn_about_y_in_the_plane(v, turn);
    lemma_turn_about_y_in_the_plane(v.rotate_y_spec(turn), back);
    lemma_plane_turn_and_back(v.z, v.x, turn.sin, turn.cos);
}

/// Adding a vector of zeros changes no component of a vector of finite numbers.
proof fn lemma_moved_by_nothing(v: Vec3, nothing: Vec3)
    requires
        finite3(v),
        nothing.x.zero() && nothing.y.zero() && nothing.z.zero(),
    ensures
        v.add_spec(nothing).equal(v),
{
    lemma_add_zero(v.x, nothing.x);
    lemma_add_zero(v.y, nothing.y);
    lemma_add_zero(v.z, nothing.z);
}

/// A turn about the x axis does not tell apart vectors that are equal.
proof fn lemma_turn_about_x_respects_equal(v: Vec3, w: Vec3, a: Angle)
    requires
        v.equal(w),
        finite3(w),
        a.sin.finite(),
        a.cos.finite(),
        finite3(w.rotate_x_spec(a)),
    ensures
        v.rotate_x_spec(a).equal(w.rotate_x_spec(a)),
{
    lemma_order(a.sin, a.sin, a.sin);
    lemma_order(a.cos, a.cos, a.cos);
    lemma_mul_respects_equal(v.y, w.y, a.cos, a.cos);
    lemma_mul_respects_equal(v.z, w.z, a.sin, a.sin);
    lemma_mul_respects_equal(v.y, w.y, a.sin, a.sin);
    lemma_mul_respects_equal(v.z, w.z, a.cos, a.cos);
    lemma_neg_respects_equal(v.z.mul_spec(a.sin), w.z.mul_spec(a.sin));
    lemma_add_respects_equal(v.y.mul_spec(a.cos), w.y.mul_spec(a.cos), v.z.mul_spec(a.sin).neg_spec(), w.z.mul_spec(a.sin).neg_spec());
    lemma_add_respects_equal(v.y.mul_spec(a.sin), w.y.mul_spec(a.sin), v.z.mul_spec(a.cos), w.z.mul_spec(a.cos));
}

/// A vertex placed by a turn about the x axis alone, and placed again by the turn
/// back, returns: with no move either way, x comes back equal, and y and z to within
/// `16 * 2^-24` of their two sizes together, and three units of `2^-149`. The angle back
/// has the radians and the sine of the angle there negated, and its cosine; the sine and
/// the cosine are those of one angle as nearly as binary32 can say; the vertex, the turned
/// vertex and the one that comes back are of finite numbers.
pub proof fn lemma_placed_about_x_and_back(v: Vec3, there: Rotation, back: Rotation, nothing: Vec3)
    requires
        nothing.x.zero() && nothing.y.zero() && nothing.z.zero(),
        there.y.radians.zero() && there.z.radians.zero(),
        back.y.radians.zero() && back.z.radians.zero(),
        back.x.radians == there.x.radians.neg_spec(),
        is_turn_back(there.x, back.x),
        near_unit(there.x.sin, there.x.cos),
        finite3(v),
        finite3(v.rotate_x_spec(there.x)),
        finite3(v.rotate_x_spec(there.x).rotate_x_spec(back.x)),
    ensures
        transform_vertex_spec(nothing, back, transform_vertex_spec(nothing, there, v)).x.equal(v.x),
        back_within(
            transform_vertex_spec(nothing, back, transform_vertex_spec(nothing, there, v)).y,
            v.y,
            v.z,
        ),
        back_within(
            transform_vertex_spec(nothing, back, transform_vertex_spec(nothing, there, v)).z,
            v.z,
            v.y,
        ),
{
    let zero = F32 { bits: 0 };
    let placed = transform_vertex_spec(nothing, there, v);
    let returned = transform_vertex_spec(nothing, back, placed);
    assert(there.x.radians.neg_spec().magnitude() == there.x.radians.magnitude());
    lemma_whole(v.x);
    lemma_whole(v.y);
    lemma_whole(v.z);
    if there.x.radians.equal(zero) {
        lemma_moved_by_nothing(v, nothing);
        lemma_moved_by_nothing(placed, nothing);
        lemma_equal_wholes(placed.x, v.x);
        lemma_equal_wholes(placed.y, v.y);
        lemma_equal_wholes(placed.z, v.z);
        lemma_equal_wholes(returned.x, placed.x);
        lemma_equal_wholes(returned.y, placed.y);
        lemma_equal_wholes(returned.z, placed.z);
    } else {
        let turned = v.rotate_x_spec(there.x);
        let both = turned.rotate_x_spec(back.x);
        lemma_turn_about_x_and_back(v, there.x, back.x);
        lemma_moved_by_nothing(turned, nothing);
        lemma_turn_about_x_respects_equal(placed, turned, back.x);
        lemma_equal_wholes(placed.rotate_x_spec(back.x).x, both.x);
        lemma_equal_wholes(placed.rotate_x_spec(back.x).y, both.y);
        lemma_equal_wholes(placed.rotate_x_spec(back.x).z, both.z);
        lemma_moved_by_nothing(placed.rotate_x_spec(back.x), nothing);
        lemma_equal_wholes(returned.x, both.x);
        lemma_equal_wholes(returned.y, both.y);
        lemma_equal_wholes(returned.z, both.z);
    }
}

/// A turn about the y axis does not tell apart vectors that are equal.
proof fn lemma_turn_about_y_respects_equal(v: Vec3, w: Vec3, a: Angle)
    requires
        v.equal(w),
        finite3(w),
        a.sin.finite(),
        a.cos.finite(),
        finite3(w.rotate_y_spec(a)),
    ensures
        v.rotate_y_spec(a).equal(w.rotate_y_spec(a)),
{
    lemma_order(a.sin, a.sin, a.sin);
    lemma_order(a.cos, a.cos, a.cos);
    lemma_neg_respects_equal(v.x, w.x);
    lemma_mul_respects_equal(v.x, w.x, a.cos, a.cos);
    lemma_mul_respects_equal(v.z, w.z, a.sin, a.sin);
    lemma_mul_respects_equal(v.x.neg_spec(), w.x.neg_spec(), a.sin, a.sin);
    lemma_mul_respects_equal(v.z, w.z, a.cos, a.cos);
    lemma_add_respects_equal(v.x.mul_spec(a.cos), w.x.mul_spec(a.cos), v.z.mul_spec(a.sin), w.z.mul_spec(a.sin));
    lemma_add_respects_equal(v.x.neg_spec().mul_spec(a.sin), w.x.neg_spec().mul_spec(a.sin), v.z.mul_spec(a.cos), w.z.mul_spec(a.cos));
}

/// A vertex placed by a turn about the y axis alone, and placed again by the turn
/// back, returns: with no move either way, y comes back equal, and x and z to within
/// `16 * 2^-24` of their two sizes together, and three units of `2^-149`. The angle back
/// has the radians and the sine of the angle there negated, and its cosine; the sine and
/// the cosine are those of one angle as nearly as binary32 can say; the vertex, the turned
/// vertex and the one that comes back are of finite numbers.
pub proof fn lemma_placed_about_y_and_back(v: Vec3, there: Rotation, back: Rotation, nothing: Vec3)
    requires
        nothing.x.zero() && nothing.y.zero() && nothing.z.zero(),
        there.x.radians.zero() && there.z.radians.zero(),
        back.x.radians.zero() && back.z.radians.zero(),
        back.y.radians == there.y.radians.neg_spec(),
        is_turn_back(there.y, back.y),
        near_unit(there.y.sin, there.y.cos),
        finite3(v),
        finite3(v.rotate_y_spec(there.y)),
        finite3(v.rotate_y_spec(there.y).rotate_y_spec(back.y)),
    ensures
        transform_vertex_spec(nothing, back, transform_vertex_spec(nothing, there, v)).y.equal(v.y),
        back_within(
            transform_vertex_spec(nothing, back, transform_vertex_spec(nothing, there, v)).x,
            v.x,
            v.z,
        ),
        back_within(
            transform_vertex_spec(nothing, back, transform_vertex_spec(nothing, there, v)).z,
            v.z,
            v.x,
        ),
{
    let zero = F32 { bits: 0 };
    let placed = transform_vertex_spec(nothing, there, v);
    let returned = transform_vertex_spec(nothing, back, placed);
    assert(there.y.radians.neg_spec().magnitude() == there.y.radians.magnitude());
    lemma_whole(v.x);
    lemma_whole(v.y);
    lemma_whole(v.z);
    if there.y.radians.equal(zero) {
        lemma_moved_by_nothing(v, nothing);
        lemma_moved_by_nothing(placed, nothing);
        lemma_equal_wholes(placed.x, v.x);
        lemma_equal_wholes(placed.y, v.y);
        lemma_equal_wholes(placed.z, v.z);
        lemma_equal_wholes(returned.x, placed.x);
        lemma_equal_wholes(returned.y, placed.y);
        lemma_equal_wholes(returned.z, placed.z);
    } else {
        let turned = v.rotate_y_spec(there.y);
        let both = turned.rotate_y_spec(back.y);
        lemma_turn_about_y_and_back(v, there.y, back.y);
        lemma_moved_by_nothing(turned, nothing);
        lemma_turn_about_y_respects_equal(placed, turned, back.y);
        lemma_equal_wholes(placed.rotate_y_spec(back.y).x, both.x);
        lemma_equal_wholes(placed.rotate_y_spec(back.y).y, both.y);
        lemma_equal_wholes(placed.rotate_y_spec(back.y).z, both.z);
        lemma_moved_by_nothing(placed.rotate_y_spec(back.y), nothing);
        lemma_equal_wholes(returned.x, both.x);
        lemma_equal_wholes(returned.y, both.y);
        lemma_equal_wholes(returned.z, both.z);
    }
}

/// A turn about the z axis does not tell apart vectors that are equal.
proof fn lemma_turn_about_z_respects_equal(v: Vec3, w: Vec3, a: Angle)
    requires
        v.equal(w),
        finite3(w),
        a.sin.finite(),
        a.cos.finite(),
        finite3(w.rotate_z_spec(a)),
    ensures
        v.rotate_z_spec(a).equal(w.rotate_z_spec(a)),
{
    lemma_order(a.sin, a.sin, a.sin);
    lemma_order(a.cos, a.cos, a.cos);
    lemma_mul_respects_equal(v.x, w.x, a.cos, a.cos);
    lemma_mul_respects_equal(v.y, w.y, a.sin, a.sin);
    lemma_mul_respects_equal(v.x, w.x, a.sin, a.sin);
    lemma_mul_respects_equal(v.y, w.y, a.cos, a.cos);
    lemma_neg_respects_equal(v.y.mul_spec(a.sin), w.y.mul_spec(a.sin));
    lemma_add_respects_equal(v.x.mul_spec(a.cos), w.x.mul_spec(a.cos), v.y.mul_spec(a.sin).neg_spec(), w.y.mul_spec(a.sin).neg_spec());
    lemma_add_respects_equal(v.x.mul_spec(a.sin), w.x.mul_spec(a.sin), v.y.mul_spec(a.cos), w.y.mul_spec(a.cos));
}

/// A vertex placed by a turn about the z axis alone, and placed again by the turn
/// back, returns: with no move either way, z comes back equal, and x and y to within
/// `16 * 2^-24` of their two sizes together, and three units of `2^-149`. The angle back
/// has the radians and the sine of the angle there negated, and its cosine; the sine and
/// the cosine are those of one angle as nearly as binary32 can say; the vertex, the turned
/// vertex and the one that comes back are of finite numbers.
pub proof fn lemma_placed_about_z_and_back(v: Vec3, there: Rotation, back: Rotation, nothing: Vec3)
    requires
        nothing.x.zero() && nothing.y.zero() && nothing.z.zero(),
        there.x.radians.zero() && there.y.radians.zero(),
        back.x.radians.zero() && back.y.radians.zero(),
        back.z.radians == there.z.radians.neg_spec(),
        is_turn_back(there.z, back.z),
        near_unit(there.z.sin, there.z.cos),
        finite3(v),
        finite3(v.rotate_z_spec(there.z)),
        finite3(v.rotate_z_spec(there.z).rotate_z_spec(back.z)),
    ensures
        transform_vertex_spec(nothing, back, transform_vertex_spec(nothing, there, v)).z.equal(v.z),
        back_within(
            transform_vertex_spec(nothing, back, transform_vertex_spec(nothing, there, v)).x,
            v.x,
            v.y,
        ),
        back_within(
            transform_vertex_spec(nothing, back, transform_vertex_spec(nothing, there, v)).y,
            v.y,
            v.x,
        ),
{
    let zero = F32 { bits: 0 };
    let placed = transform_vertex_spec(nothing, there, v);
    let returned = transform_vertex_spec(nothing, back, placed);
    assert(there.z.radians.neg_spec().magnitude() == there.z.radians.magnitude());
    lemma_whole(v.x);
    lemma_whole(v.y);
    lemma_whole(v.z);
    if there.z.radians.equal(zero) {
        lemma_moved_by_nothing(v, nothing);
        lemma_moved_by_nothing(placed, nothing);
        lemma_equal_wholes(placed.x, v.x);
        lemma_equal_wholes(placed.y, v.y);
        lemma_equal_wholes(placed.z, v.z);
        lemma_equal_wholes(returned.x, placed.x);
        lemma_equal_wholes(returned.y, placed.y);
        lemma_equal_wholes(returned.z, placed.z);
    } else {
        let turned = v.rotate_z_spec(there.z);
        let both = turned.rotate_z_spec(back.z);
        lemma_turn_about_z_and_back(v, there.z, back.z);
        lemma_moved_by_nothing(turned, nothing);
        lemma_turn_about_z_respects_equal(placed, turned, back.z);
        lemma_equal_wholes(placed.rotate_z_spec(back.z).x, both.x);
        lemma_equal_wholes(placed.rotate_z_spec(back.z).y, both.y);
        lemma_equal_wholes(placed.rotate_z_spec(back.z).z, both.z);
        lemma_moved_by_nothing(placed.rotate_z_spec(back.z), nothing);
        lemma_equal_wholes(returned.x, both.x);
        lemma_equal_wholes(returned.y, both.y);
        lemma_equal_wholes(returned.z, both.z);
    }
}

/// The point at depth `d` straight ahead of a camera, seen from the camera's position:
/// `(0, 0, d)` turned about x by the pitch, then about y by the yaw.
pub open spec fn ahead(d: F32, yaw: Angle, pitch: Angle) -> Vec3 {
    (Vec3 { x: F32 { bits: 0 }, y: F32 { bits: 0 }, z: d }).rotate_x_spec(pitch).rotate_y_spec(yaw)
}

/// What a turned camera sees straight ahead lies on its axis: the point at depth `d`
/// ahead, turned back about y by the yaw negated and then about x by the pitch negated,
/// as a vertex is on its way into camera space, has an x and a y within `33 * 2^-24` of
/// the depth of zero, and a z as near to `d`. The sines and cosines are those of the
/// angles as nearly as binary32 can say, and all the vectors on the way are of finite
/// numbers.
pub proof fn lemma_ahead_is_on_the_axis(d: F32, yaw: Angle, pitch: Angle, neg_yaw: Angle, neg_pitch: Angle)
    requires
        d.finite(),
        is_turn_back(yaw, neg_yaw),
        is_turn_back(pitch, neg_pitch),
        near_unit(yaw.sin, yaw.cos),
        near_unit(pitch.sin, pitch.cos),
        finite3((Vec3 { x: F32 { bits: 0 }, y: F32 { bits: 0 }, z: d }).rotate_x_spec(pitch)),
        finite3(ahead(d, yaw, pitch)),
        finite3(ahead(d, yaw, pitch).rotate_y_spec(neg_yaw)),
        finite3(ahead(d, yaw, pitch).rotate_y_spec(neg_yaw).rotate_x_spec(neg_pitch)),
    ensures
        on_axis_within(ahead(d, yaw, pitch).rotate_y_spec(neg_yaw).rotate_x_spec(neg_pitch).x, 0, d),
        on_axis_within(ahead(d, yaw, pitch).rotate_y_spec(neg_yaw).rotate_x_spec(neg_pitch).y, 0, d),
        on_axis_within(ahead(d, yaw, pitch).rotate_y_spec(neg_yaw).rotate_x_spec(neg_pitch).z, whole(d), d),
{
    let zero = F32 { bits: 0 };
    let start = Vec3 { x: zero, y: zero, z: d };
    let raised = start.rotate_x_spec(pitch);
    let seen = ahead(d, yaw, pitch).rotate_y_spec(neg_yaw);
    let found = seen.rotate_x_spec(neg_pitch);
    lemma_whole(zero);
    lemma_whole(d);
    lemma_whole(raised.z);
    lemma_whole(raised.x);
    // the raised point is no farther than d
    lemma_mul_zero(pitch.sin, zero);
    lemma_product_does_not_grow(d, pitch.cos);
    lemma_finite_gives_numbers(d, pitch.cos);
    lemma_add_zero(d.mul_spec(pitch.cos), zero.mul_spec(pitch.sin));
    lemma_equal_wholes(raised.z, d.mul_spec(pitch.cos));
    assert(size(whole(raised.z)) <= size(whole(d)));
    // about y and back
    lemma_turn_about_y_and_back(raised, yaw, neg_yaw);
    assert(seen.y == raised.y);
    // about x and back, from near the raised point
    lemma_plane_turn_back_from_near(zero, d, pitch.sin, pitch.cos, seen.y, seen.z);
    let gap = size(whole(seen.z) - whole(raised.z));
    assert(0x100_0000 * gap <= 16 * size(whole(d)) + 3 * 0x100_0000);
    assert(0x100_0002 * gap <= 17 * size(whole(d)) + 4 * 0x100_0000);
}

/// A turn in a plane does not double a pair of numbers: where the sizes of the whole
/// numbers of both are at most `2^(j + 149)` and the sine and cosine lie from -1 to 1, both
/// numbers of the turned pair are finite and at most `2^(j + 150)` in size.
pub proof fn lemma_turned_is_bounded(p: F32, q: F32, s: F32, c: F32, j: nat)
    requires
        p.finite(),
        q.finite(),
        s.magnitude() <= 0x3f80_0000,
        c.magnitude() <= 0x3f80_0000,
        j <= 100,
        size(whole(p)) <= pow2(j + 149),
        size(whole(q)) <= pow2(j + 149),
    ensures
        turned_first(p, q, s, c).finite(),
        turned_second(p, q, s, c).finite(),
        size(whole(turned_first(p, q, s, c))) <= pow2(j + 150),
        size(whole(turned_second(p, q, s, c))) <= pow2(j + 150),
{
    lemma_product_does_not_grow(p, c);
    lemma_product_does_not_grow(q, s);
    lemma_product_does_not_grow(p, s);
    lemma_product_does_not_grow(q, c);
    lemma_whole(q.mul_spec(s));
    lemma_sum_is_bounded(p.mul_spec(c), q.mul_spec(s).neg_spec(), j);
    lemma_sum_is_bounded(p.mul_spec(s), q.mul_spec(c), j);
}

/// Whether a vector is of finite numbers of at most `2^j` in size: the sizes of the whole
/// numbers of its components are at most `2^(j + 149)`.
pub open spec fn of_size(v: Vec3, j: nat) -> bool {
    &&& finite3(v)
    &&& size(whole(v.x)) <= pow2(j + 149)
    &&& size(whole(v.y)) <= pow2(j + 149)
    &&& size(whole(v.z)) <= pow2(j + 149)
}

/// A turn about an axis does not double a vector: where the sizes of the whole numbers of
/// its components are at most `2^(j + 149)`, the turned vector is of finite numbers of
/// at most `2^(j + 150)` in size.
pub proof fn lemma_turn_is_bounded(v: Vec3, a: Angle, j: nat)
    requires
        finite3(v),
        a.sin.magnitude() <= 0x3f80_0000,
        a.cos.magnitude() <= 0x3f80_0000,
        j <= 100,
        size(whole(v.x)) <= pow2(j + 149),
        size(whole(v.y)) <= pow2(j + 149),
        size(whole(v.z)) <= pow2(j + 149),
    ensures
        of_size(v.rotate_x_spec(a), j + 1),
        of_size(v.rotate_y_spec(a), j + 1),
        of_size(v.rotate_z_spec(a), j + 1),
        finite3(v.rotate_x_spec(a)),
        finite3(v.rotate_y_spec(a)),
        size(whole(v.rotate_x_spec(a).x)) <= pow2(j + 150),
        size(whole(v.rotate_x_spec(a).y)) <= pow2(j + 150),
        size(whole(v.rotate_x_spec(a).z)) <= pow2(j + 150),
        size(whole(v.rotate_y_spec(a).x)) <= pow2(j + 150),
        size(whole(v.rotate_y_spec(a).y)) <= pow2(j + 150),
        size(whole(v.rotate_y_spec(a).z)) <= pow2(j + 150),
{
    lemma_pow2_increases(j + 149, j + 150);
    lemma_turned_is_bounded(v.y, v.z, a.sin, a.cos, j);
    lemma_turn_about_y_in_the_plane(v, a);
    lemma_turned_is_bounded(v.z, v.x, a.sin, a.cos, j);
    lemma_turned_is_bounded(v.x, v.y, a.sin, a.cos, j);
}


/// A vertex of at most `2^99` in size, placed by a turn about the x axis alone and
/// placed again by the turn back, returns: all the vectors on the way are of finite
/// numbers, x comes back equal, and y and z to within `16 * 2^-24` of their two sizes
/// together, and three units of `2^-149`. The angle back has the radians and the sine of
/// the angle there negated, and its cosine; the sine and the cosine are those of one
/// angle as nearly as binary32 can say; there is no move either way.
pub proof fn lemma_vertex_about_x_and_back(v: Vec3, there: Rotation, back: Rotation, nothing: Vec3)
    requires
        nothing.x.zero() && nothing.y.zero() && nothing.z.zero(),
        there.y.radians.zero() && there.z.radians.zero(),
        back.y.radians.zero() && back.z.radians.zero(),
        back.x.radians == there.x.radians.neg_spec(),
        is_turn_back(there.x, back.x),
        near_unit(there.x.sin, there.x.cos),
        of_size(v, 99),
    ensures
        finite3(transform_vertex_spec(nothing, there, v)),
        finite3(transform_vertex_spec(nothing, back, transform_vertex_spec(nothing, there, v))),
        transform_vertex_spec(nothing, back, transform_vertex_spec(nothing, there, v)).x.equal(v.x),
        back_within(
            transform_vertex_spec(nothing, back, transform_vertex_spec(nothing, there, v)).y,
            v.y,
            v.z,
        ),
        back_within(
            transform_vertex_spec(nothing, back, transform_vertex_spec(nothing, there, v)).z,
            v.z,
            v.y,
        ),
{
    let zero = F32 { bits: 0 };
    assert(back.x.sin.magnitude() == there.x.sin.magnitude());
    assert(there.x.radians.neg_spec().magnitude() == there.x.radians.magnitude());
    lemma_turn_is_bounded(v, there.x, 99);
    let turned = v.rotate_x_spec(there.x);
    lemma_turn_is_bounded(turned, back.x, 100);
    lemma_placed_about_x_and_back(v, there, back, nothing);
    let placed = transform_vertex_spec(nothing, there, v);
    let returned = transform_vertex_spec(nothing, back, placed);
    if there.x.radians.equal(zero) {
        lemma_moved_by_nothing(v, nothing);
        lemma_order(placed.x, v.x, v.x);
        lemma_order(placed.y, v.y, v.y);
        lemma_order(placed.z, v.z, v.z);
        lemma_moved_by_nothing(placed, nothing);
        lemma_order(returned.x, placed.x, placed.x);
        lemma_order(returned.y, placed.y, placed.y);
        lemma_order(returned.z, placed.z, placed.z);
    } else {
        lemma_moved_by_nothing(turned, nothing);
        lemma_order(placed.x, turned.x, turned.x);
        lemma_order(placed.y, turned.y, turned.y);
        lemma_order(placed.z, turned.z, turned.z);
        lemma_turn_about_x_respects_equal(placed, turned, back.x);
        let both = turned.rotate_x_spec(back.x);
        lemma_order(placed.rotate_x_spec(back.x).x, both.x, both.x);
        lemma_order(placed.rotate_x_spec(back.x).y, both.y, both.y);
        lemma_order(placed.rotate_x_spec(back.x).z, both.z, both.z);
        lemma_moved_by_nothing(placed.rotate_x_spec(back.x), nothing);
        lemma_order(returned.x, both.x, both.x);
        lemma_order(returned.y, both.y, both.y);
        lemma_order(returned.z, both.z, both.z);
    }
}

/// A vertex of at most `2^99` in size, placed by a turn about the y axis alone and
/// placed again by the turn back, returns: all the vectors on the way are of finite
/// numbers, y comes back equal, and x and z to within `16 * 2^-24` of their two sizes
/// together, and three units of `2^-149`. The angle back has the radians and the sine of
/// the angle there negated, and its cosine; the sine and the cosine are those of one
/// angle as nearly as binary32 can say; there is no move either way.
pub proof fn lemma_vertex_about_y_and_back(v: Vec3, there: Rotation, back: Rotation, nothing: Vec3)
    requires
        nothing.x.zero() && nothing.y.zero() && nothing.z.zero(),
        there.x.radians.zero() && there.z.radians.zero(),
        back.x.radians.zero() && back.z.radians.zero(),
        back.y.radians == there.y.radians.neg_spec(),
        is_turn_back(there.y, back.y),
        near_unit(there.y.sin, there.y.cos),
        of_size(v, 99),
    ensures
        finite3(transform_vertex_spec(nothing, there, v)),
        finite3(transform_vertex_spec(nothing, back, transform_vertex_spec(nothing, there, v))),
        transform_vertex_spec(nothing, back, transform_vertex_spec(nothing, there, v)).y.equal(v.y),
        back_within(
            transform_vertex_spec(nothing, back, transform_vertex_spec(nothing, there, v)).x,
            v.x,
            v.z,
        ),
        back_within(
            transform_vertex_spec(nothing, back, transform_vertex_spec(nothing, there, v)).z,
            v.z,
            v.x,
        ),
{
    let zero = F32 { bits: 0 };
    assert(back.y.sin.magnitude() == there.y.sin.magnitude());
    assert(there.y.radians.neg_spec().magnitude() == there.y.radians.magnitude());
    lemma_turn_is_bounded(v, there.y, 99);
    let turned = v.rotate_y_spec(there.y);
    lemma_turn_is_bounded(turned, back.y, 100);
    lemma_placed_about_y_and_back(v, there, back, nothing);
    let placed = transform_vertex_spec(nothing, there, v);
    let returned = transform_vertex_spec(nothing, back, placed);
    if there.y.radians.equal(zero) {
        lemma_moved_by_nothing(v, nothing);
        lemma_order(placed.x, v.x, v.x);
        lemma_order(placed.y, v.y, v.y);
        lemma_order(placed.z, v.z, v.z);
        lemma_moved_by_nothing(placed, nothing);
        lemma_order(returned.x, placed.x, placed.x);
        lemma_order(returned.y, placed.y, placed.y);
        lemma_order(returned.z, placed.z, placed.z);
    } else {
        lemma_moved_by_nothing(turned, nothing);
        lemma_order(placed.x, turned.x, turned.x);
        lemma_order(placed.y, turned.y, turned.y);
        lemma_order(placed.z, turned.z, turned.z);
        lemma_turn_about_y_respects_equal(placed, turned, back.y);
        let both = turned.rotate_y_spec(back.y);
        lemma_order(placed.rotate_y_spec(back.y).x, both.x, both.x);
        lemma_order(placed.rotate_y_spec(back.y).y, both.y, both.y);
        lemma_order(placed.rotate_y_spec(back.y).z, both.z, both.z);
        lemma_moved_by_nothing(placed.rotate_y_spec(back.y), nothing);
        lemma_order(returned.x, both.x, both.x);
        lemma_order(returned.y, both.y, both.y);
        lemma_order(returned.z, both.z, both.z);
    }
}

/// A vertex of at most `2^99` in size, placed by a turn about the z axis alone and
/// placed again by the turn back, returns: all the vectors on the way are of finite
/// numbers, z comes back equal, and x and y to within `16 * 2^-24` of their two sizes
/// together, and three units of `2^-149`. The angle back has the radians and the sine of
/// the angle there negated, and its cosine; the sine and the cosine are those of one
/// angle as nearly as binary32 can say; there is no move either way.
pub proof fn lemma_vertex_about_z_and_back(v: Vec3, there: Rotation, back: Rotation, nothing: Vec3)
    requires
        nothing.x.zero() && nothing.y.zero() && nothing.z.zero(),
        there.x.radians.zero() && there.y.radians.zero(),
        back.x.radians.zero() && back.y.radians.zero(),
        back.z.radians == there.z.radians.neg_spec(),
        is_turn_back(there.z, back.z),
        near_unit(there.z.sin, there.z.cos),
        of_size(v, 99),
    ensures
        finite3(transform_vertex_spec(nothing, there, v)),
        finite3(transform_vertex_spec(nothing, back, transform_vertex_spec(nothing, there, v))),
        transform_vertex_spec(nothing, back, transform_vertex_spec(nothing, there, v)).z.equal(v.z),
        back_within(
            transform_vertex_spec(nothing, back, transform_vertex_spec(nothing, there, v)).x,
            v.x,
            v.y,
        ),
        back_within(
            transform_vertex_spec(nothing, back, transform_vertex_spec(nothing, there, v)).y,
            v.y,
            v.x,
        ),
{
    let zero = F32 { bits: 0 };
    assert(back.z.sin.magnitude() == there.z.sin.magnitude());
    assert(there.z.radians.neg_spec().magnitude() == there.z.radians.magnitude());
    lemma_turn_is_bounded(v, there.z, 99);
    let turned = v.rotate_z_spec(there.z);
    lemma_turn_is_bounded(turned, back.z, 100);
    lemma_placed_about_z_and_back(v, there, back, nothing);
    let placed = transform_vertex_spec(nothing, there, v);
    let returned = transform_vertex_spec(nothing, back, placed);
    if there.z.radians.equal(zero) {
        lemma_moved_by_nothing(v, nothing);
        lemma_order(placed.x, v.x, v.x);
        lemma_order(placed.y, v.y, v.y);
        lemma_order(placed.z, v.z, v.z);
        lemma_moved_by_nothing(placed, nothing);
        lemma_order(returned.x, placed.x, placed.x);
        lemma_order(returned.y, placed.y, placed.y);
        lemma_order(returned.z, placed.z, placed.z);
    } else {
        lemma_moved_by_nothing(turned, nothing);
        lemma_order(placed.x, turned.x, turned.x);
        lemma_order(placed.y, turned.y, turned.y);
        lemma_order(placed.z, turned.z, turned.z);
        lemma_turn_about_z_respects_equal(placed, turned, back.z);
        let both = turned.rotate_z_spec(back.z);
        lemma_order(placed.rotate_z_spec(back.z).x, both.x, both.x);
        lemma_order(placed.rotate_z_spec(back.z).y, both.y, both.y);
        lemma_order(placed.rotate_z_spec(back.z).z, both.z, both.z);
        lemma_moved_by_nothing(placed.rotate_z_spec(back.z), nothing);
        lemma_order(returned.x, both.x, both.x);
        lemma_order(returned.y, both.y, both.y);
        lemma_order(returned.z, both.z, both.z);
    }
}

/// What a turned camera sees straight ahead lands in the middle of the screen: a vertex
/// that lies, seen from the camera's position, at depth `d` straight ahead, where ahead
/// is `(0, 0, d)` turned by the pitch and then by the yaw, gets screen coordinates within
/// `2^-10` of the width and of the height of the middle. The camera holds the sines and
/// cosines of the yaw and of the pitch negated; they are those of the angles as nearly as
/// binary32 can say. The depth lies from `2^-89` to `2^60`, the scale of the field of view
/// from 0 to 16, and the screen is not higher than wide. The depth that the camera sees is
/// within `33 * 2^-24` of `d`; where the near and the far plane lie farther from `d` than
/// that, the vertex lies in the depth range, and is kept where vertices are clipped.
pub proof fn lemma_ahead_maps_to_the_middle(
    width: usize,
    height: usize,
    camera: Camera,
    v: Vec3,
    d: F32,
    yaw: Angle,
    pitch: Angle,
)
    requires
        0 < height <= width,
        is_turn_back(yaw, camera.trig.neg_yaw),
        is_turn_back(pitch, camera.trig.neg_pitch),
        near_unit(yaw.sin, yaw.cos),
        near_unit(pitch.sin, pitch.cos),
        v.sub_spec(camera.translation) == ahead(d, yaw, pitch),
        d.finite(),
        pow2(60) <= whole(d) <= pow2(209),
        (F32 { bits: ONE_BITS }).div_spec(camera.trig.half_fov_tan).finite(),
        !(F32 { bits: ONE_BITS }).div_spec(camera.trig.half_fov_tan).negative(),
        whole((F32 { bits: ONE_BITS }).div_spec(camera.trig.half_fov_tan)) <= 16 * pow2(149),
    ensures
        near_middle(
            vertex_camera_to_screen_space_spec(width, height, camera, vertex_world_to_camera_space_spec(camera, v)).x,
            width as nat,
        ),
        near_middle(
            vertex_camera_to_screen_space_spec(width, height, camera, vertex_world_to_camera_space_spec(camera, v)).y,
            height as nat,
        ),
        vertex_world_to_camera_space_spec(camera, v).z.finite(),
        on_axis_within(vertex_world_to_camera_space_spec(camera, v).z, whole(d), d),
        camera.nearz.finite() && camera.farz.finite() && 0x100_0000 * whole(camera.nearz) + 33 * whole(d) + 7
            * 0x100_0000 <= 0x100_0000 * whole(d) && 0x100_0000 * whole(d) + 33 * whole(d) + 7 * 0x100_0000
            <= 0x100_0000 * whole(camera.farz) ==> in_depth_range(
            camera,
            vertex_world_to_camera_space_spec(camera, v),
        ),
{
    let zero = F32 { bits: 0 };
    let one = F32 { bits: ONE_BITS };
    let start = Vec3 { x: zero, y: zero, z: d };
    let neg_yaw = camera.trig.neg_yaw;
    let neg_pitch = camera.trig.neg_pitch;
    let scale = one.div_spec(camera.trig.half_fov_tan);
    lemma_whole(zero);
    lemma_whole(d);
    lemma_pow2_pos(209);
    // every vector on the way is of finite numbers
    let raised = start.rotate_x_spec(pitch);
    lemma_turn_is_bounded(start, pitch, 60);
    lemma_turn_is_bounded(raised, yaw, 61);
    let there = ahead(d, yaw, pitch);
    assert(neg_yaw.sin.magnitude() == yaw.sin.magnitude());
    assert(neg_pitch.sin.magnitude() == pitch.sin.magnitude());
    lemma_turn_is_bounded(there, neg_yaw, 62);
    let seen = there.rotate_y_spec(neg_yaw);
    lemma_turn_is_bounded(seen, neg_pitch, 63);
    let found = seen.rotate_x_spec(neg_pitch);
    assert(found == vertex_world_to_camera_space_spec(camera, v));
    lemma_ahead_is_on_the_axis(d, yaw, pitch, neg_yaw, neg_pitch);
    // onto the clip square
    lemma2_to64();
    lemma_pow2_adds(32, 28);
    assert(near_axis(found.x, 0, d) && near_axis(found.y, 0, d) && near_axis(found.z, whole(d), d));
    lemma_near_axis_is_small_on_clip(found.x, found.z, d, scale);
    lemma_near_axis_is_small_on_clip(found.y, found.z, d, scale);
    let qx = found.x.mul_spec(scale).div_spec(found.z);
    let qy = found.y.mul_spec(scale).div_spec(found.z);
    let aspect = F32::from_nat_spec(height as nat).div_spec(F32::from_nat_spec(width as nat));
    lemma_from_nat_order(height as nat, width as nat);
    lemma_quotient_within_one(F32::from_nat_spec(height as nat), F32::from_nat_spec(width as nat));
    lemma_product_does_not_grow(qx, aspect);
    // and onto the screen
    lemma_small_on_clip_is_near_middle(qx.mul_spec(aspect), width as nat);
    lemma_small_on_clip_is_near_middle(qy, height as nat);
    // the depth
    if camera.nearz.finite() && camera.farz.finite() {
        if whole(camera.nearz) <= whole(found.z) {
            lemma_order_of_wholes(camera.nearz, found.z);
        }
        if whole(found.z) <= whole(camera.farz) {
            lemma_order_of_wholes(found.z, camera.farz);
        }
    }
}

/// The numbers of a turned pair are at most twice the two numbers together in size, where
/// the sine and cosine lie from -1 to 1 and the turned numbers are finite.
proof fn lemma_turned_is_small(p: F32, q: F32, s: F32, c: F32)
    requires
        p.finite(),
        q.finite(),
        s.magnitude() <= 0x3f80_0000,
        c.magnitude() <= 0x3f80_0000,
        turned_first(p, q, s, c).finite(),
        turned_second(p, q, s, c).finite(),
    ensures
        size(whole(turned_first(p, q, s, c))) <= 2 * (size(whole(p)) + size(whole(q))),
        size(whole(turned_second(p, q, s, c))) <= 2 * (size(whole(p)) + size(whole(q))),
{
    lemma_product_does_not_grow(p, c);
    lemma_product_does_not_grow(q, s);
    lemma_product_does_not_grow(p, s);
    lemma_product_does_not_grow(q, c);
    lemma_whole(q.mul_spec(s));
    lemma_sum_error(p.mul_spec(c), q.mul_spec(s).neg_spec());
    lemma_sum_error(p.mul_spec(s), q.mul_spec(c));
}

/// A number that is moved and moved back: `t + a`, less `t`, is within `41 * 2^-24` of
/// `D` of `a`, where `t` is at most `32 D` and `a` at most `4 D` in size, and `D` is at
/// most `2^209`. The sum and the difference are finite.
proof fn lemma_moved_and_back(t: F32, a: F32, big: int)
    requires
        t.finite(),
        a.finite(),
        0 <= big <= pow2(209),
        size(whole(t)) <= 32 * big,
        size(whole(a)) <= 4 * big,
    ensures
        t.add_spec(a).finite(),
        t.add_spec(a).sub_spec(t).finite(),
        0x100_0000 * size(whole(t.add_spec(a).sub_spec(t)) - whole(a)) <= 41 * big,
        size(whole(t.add_spec(a).sub_spec(t))) <= pow2(216),
{
    lemma2_to64();
    lemma_pow2_adds(5, 209);
    lemma_pow2_adds(2, 209);
    lemma_pow2_increases(211, 214);
    lemma_pow2_increases(214, 215);
    lemma_pow2_increases(215, 216);
    lemma_sum_is_bounded(t, a, 65);
    let v = t.add_spec(a);
    lemma_whole(t);
    lemma_sum_is_bounded(v, t.neg_spec(), 66);
    lemma_sum_error(t, a);
    lemma_sum_error(v, t.neg_spec());
}

/// What a turned camera sees straight ahead lands in the middle of the screen, for a
/// vertex given in the world: the camera's position plus the point at depth `d` ahead,
/// where ahead is `(0, 0, d)` turned by the pitch and then by the yaw. The vertex gets
/// screen coordinates within `2^-10` of the width and of the height of the middle. The
/// conditions are those of `lemma_ahead_maps_to_the_middle`, and the camera's position
/// is of finite numbers of at most 32 depths in size. The depth that the camera sees is
/// within `512 * 2^-24` of `d`; where the near and the far plane lie farther from `d` than
/// that, the vertex lies in the depth range, and is kept where vertices are clipped.
pub proof fn lemma_placed_ahead_maps_to_the_middle(
    width: usize,
    height: usize,
    camera: Camera,
    d: F32,
    yaw: Angle,
    pitch: Angle,
)
    requires
        0 < height <= width,
        is_turn_back(yaw, camera.trig.neg_yaw),
        is_turn_back(pitch, camera.trig.neg_pitch),
        near_unit(yaw.sin, yaw.cos),
        near_unit(pitch.sin, pitch.cos),
        d.finite(),
        pow2(60) <= whole(d) <= pow2(209),
        finite3(camera.translation),
        size(whole(camera.translation.x)) <= 32 * whole(d),
        size(whole(camera.translation.y)) <= 32 * whole(d),
        size(whole(camera.translation.z)) <= 32 * whole(d),
        (F32 { bits: ONE_BITS }).div_spec(camera.trig.half_fov_tan).finite(),
        !(F32 { bits: ONE_BITS }).div_spec(camera.trig.half_fov_tan).negative(),
        whole((F32 { bits: ONE_BITS }).div_spec(camera.trig.half_fov_tan)) <= 16 * pow2(149),
    ensures
        near_middle(
            vertex_camera_to_screen_space_spec(
                width,
                height,
                camera,
                vertex_world_to_camera_space_spec(camera, camera.translation.add_spec(ahead(d, yaw, pitch))),
            ).x,
            width as nat,
        ),
        near_middle(
            vertex_camera_to_screen_space_spec(
                width,
                height,
                camera,
                vertex_world_to_camera_space_spec(camera, camera.translation.add_spec(ahead(d, yaw, pitch))),
            ).y,
            height as nat,
        ),
        vertex_world_to_camera_space_spec(camera, camera.translation.add_spec(ahead(d, yaw, pitch))).z.finite(),
        near_axis(
            vertex_world_to_camera_space_spec(camera, camera.translation.add_spec(ahead(d, yaw, pitch))).z,
            whole(d),
            d,
        ),
        camera.nearz.finite() && camera.farz.finite() && 0x100_0000 * whole(camera.nearz) + 512 * whole(d)
            <= 0x100_0000 * whole(d) && 0x100_0000 * whole(d) + 512 * whole(d) <= 0x100_0000 * whole(camera.farz)
            ==> in_depth_range(
            camera,
            vertex_world_to_camera_space_spec(camera, camera.translation.add_spec(ahead(d, yaw, pitch))),
        ),
{
    let zero = F32 { bits: 0 };
    let one = F32 { bits: ONE_BITS };
    let t = camera.translation;
    let start = Vec3 { x: zero, y: zero, z: d };
    let neg_yaw = camera.trig.neg_yaw;
    let neg_pitch = camera.trig.neg_pitch;
    let scale = one.div_spec(camera.trig.half_fov_tan);
    let big = whole(d);
    lemma_whole(zero);
    lemma_whole(d);
    lemma_pow2_pos(209);
    lemma2_to64();
    lemma_pow2_adds(32, 28);
    // the point ahead
    let raised = start.rotate_x_spec(pitch);
    lemma_turn_is_bounded(start, pitch, 60);
    lemma_turn_is_bounded(raised, yaw, 61);
    let there = ahead(d, yaw, pitch);
    lemma_turn_about_y_in_the_plane(raised, yaw);
    lemma_turned_is_small(zero, d, pitch.sin, pitch.cos);
    lemma_turned_is_small(raised.z, raised.x, yaw.sin, yaw.cos);
    assert(size(whole(there.x)) <= 4 * big && size(whole(there.y)) <= 4 * big && size(whole(there.z)) <= 4 * big);
    // moved to the camera's position and back
    let v = t.add_spec(there);
    let e = v.sub_spec(t);
    lemma_moved_and_back(t.x, there.x, big);
    lemma_moved_and_back(t.y, there.y, big);
    lemma_moved_and_back(t.z, there.z, big);
    assert(finite3(e));
    // about y, back from near the point ahead
    assert(neg_yaw.sin.magnitude() == yaw.sin.magnitude());
    assert(neg_pitch.sin.magnitude() == pitch.sin.magnitude());
    lemma_pow2_adds(67, 149);
    lemma_turn_is_bounded(e, neg_yaw, 67);
    let seen = e.rotate_y_spec(neg_yaw);
    lemma_turn_about_y_in_the_plane(e, neg_yaw);
    lemma_plane_turn_back_from_near(raised.z, raised.x, yaw.sin, yaw.cos, e.z, e.x);
    lemma_whole(raised.x);
    let gap_yaw = size(whole(e.z) - whole(there.z)) + size(whole(e.x) - whole(there.x));
    assert(0x100_0000 * gap_yaw <= 82 * big);
    assert(0x100_0002 * gap_yaw <= 83 * big);
    assert(0x100_0000 * size(whole(seen.z) - whole(raised.z)) <= 115 * big + 3 * 0x100_0000);
    assert(0x100_0000 * size(whole(seen.x)) <= 115 * big + 3 * 0x100_0000);
    assert(seen.y == e.y);
    assert(there.y == raised.y);
    // about x, back from near the raised point
    lemma_turn_is_bounded(seen, neg_pitch, 68);
    let found = seen.rotate_x_spec(neg_pitch);
    assert(found == vertex_world_to_camera_space_spec(camera, v));
    lemma_plane_turn_back_from_near(zero, d, pitch.sin, pitch.cos, seen.y, seen.z);
    let gap_pitch = size(whole(seen.y) - whole(raised.y)) + size(whole(seen.z) - whole(raised.z));
    assert(0x100_0000 * gap_pitch <= 156 * big + 3 * 0x100_0000);
    assert(0x100_0002 * gap_pitch <= 157 * big + 4 * 0x100_0000);
    assert(near_axis(found.x, 0, d) && near_axis(found.y, 0, d) && near_axis(found.z, whole(d), d));
    // onto the clip square and onto the screen
    lemma_near_axis_is_small_on_clip(found.x, found.z, d, scale);
    lemma_near_axis_is_small_on_clip(found.y, found.z, d, scale);
    let qx = found.x.mul_spec(scale).div_spec(found.z);
    let qy = found.y.mul_spec(scale).div_spec(found.z);
    let aspect = F32::from_nat_spec(height as nat).div_spec(F32::from_nat_spec(width as nat));
    lemma_from_nat_order(height as nat, width as nat);
    lemma_quotient_within_one(F32::from_nat_spec(height as nat), F32::from_nat_spec(width as nat));
    lemma_product_does_not_grow(qx, aspect);
    lemma_small_on_clip_is_near_middle(qx.mul_spec(aspect), width as nat);
    lemma_small_on_clip_is_near_middle(qy, height as nat);
    // the depth
    if camera.nearz.finite() && camera.farz.finite() {
        if whole(camera.nearz) <= whole(found.z) {
            lemma_order_of_wholes(camera.nearz, found.z);
        }
        if whole(found.z) <= whole(camera.farz) {
            lemma_order_of_wholes(found.z, camera.farz);
        }
    }
}

/// The matrix of a quaternion about the x axis turns a point nearly as `rotate_x` does
/// by the whole angle: where the sine and the cosine that the matrix holds lie from -1 to
/// 1 and within `d` units of `2^-149` of those of the angle, the coordinates of the product
/// are apart from those of the turned vector by no more than `d * 2^-149` and
/// `4 * 2^-24` of the sizes of the two that are turned together, and a few units; the
/// coordinate along the axis is equal. The numbers that the matrix is made of and those
/// of both turned vectors are finite.
pub proof fn lemma_quat_about_x_turns_nearly(q: Quat, full: Angle, v: Vec3, d: int)
    requires
        q.0.y.zero(),
        q.0.z.zero(),
        tame(q, q.0.x),
        finite3(v),
        full.sin.magnitude() <= 0x3f80_0000 && full.cos.magnitude() <= 0x3f80_0000,
        q.compute_mat4_spec().r3.y.magnitude() <= 0x3f80_0000,
        q.compute_mat4_spec().r2.y.magnitude() <= 0x3f80_0000,
        size(whole(q.compute_mat4_spec().r3.y) - whole(full.sin)) <= d,
        size(whole(q.compute_mat4_spec().r2.y) - whole(full.cos)) <= d,
        finite3(v.rotate_x_spec(full)),
        finite3(
            v.rotate_x_spec(
                Angle {
                    radians: full.radians,
                    sin: q.compute_mat4_spec().r3.y,
                    cos: q.compute_mat4_spec().r2.y,
                },
            ),
        ),
    ensures
        q.compute_mat4_spec().mult_vec4_spec(point(v)).x.equal(v.x),
        steady_within(
            q.compute_mat4_spec().mult_vec4_spec(point(v)).y,
            v.rotate_x_spec(full).y,
            v.y,
            v.z,
            d,
        ),
        steady_within(
            q.compute_mat4_spec().mult_vec4_spec(point(v)).z,
            v.rotate_x_spec(full).z,
            v.y,
            v.z,
            d,
        ),
        q.compute_mat4_spec().mult_vec4_spec(point(v)).w.bits == ONE_BITS,
{
    let m = q.compute_mat4_spec();
    let turn = Angle { radians: full.radians, sin: m.r3.y, cos: m.r2.y };
    lemma_quat_about_x_turns(q, turn, v);
    let by_matrix = m.mult_vec4_spec(point(v));
    let turned = v.rotate_x_spec(turn);
    lemma_equal_wholes(by_matrix.x, turned.x);
    lemma_equal_wholes(by_matrix.y, turned.y);
    lemma_equal_wholes(by_matrix.z, turned.z);
    lemma_plane_turn_is_steady(v.y, v.z, full.sin, full.cos, turn.sin, turn.cos, d);
}

/// The matrix of a quaternion about the y axis turns a point nearly as `rotate_y` does
/// by the whole angle: where the sine and the cosine that the matrix holds lie from -1 to
/// 1 and within `d` units of `2^-149` of those of the angle, the coordinates of the product
/// are apart from those of the turned vector by no more than `d * 2^-149` and
/// `4 * 2^-24` of the sizes of the two that are turned together, and a few units; the
/// coordinate along the axis is equal. The numbers that the matrix is made of and those
/// of both turned vectors are finite.
pub proof fn lemma_quat_about_y_turns_nearly(q: Quat, full: Angle, v: Vec3, d: int)
    requires
        q.0.x.zero(),
        q.0.z.zero(),
        tame(q, q.0.y),
        finite3(v),
        full.sin.magnitude() <= 0x3f80_0000 && full.cos.magnitude() <= 0x3f80_0000,
        q.compute_mat4_spec().r1.z.magnitude() <= 0x3f80_0000,
        q.compute_mat4_spec().r1.x.magnitude() <= 0x3f80_0000,
        size(whole(q.compute_mat4_spec().r1.z) - whole(full.sin)) <= d,
        size(whole(q.compute_mat4_spec().r1.x) - whole(full.cos)) <= d,
        finite3(v.rotate_y_spec(full)),
        finite3(
            v.rotate_y_spec(
                Angle {
                    radians: full.radians,
                    sin: q.compute_mat4_spec().r1.z,
                    cos: q.compute_mat4_spec().r1.x,
                },
            ),
        ),
    ensures
        q.compute_mat4_spec().mult_vec4_spec(point(v)).y.equal(v.y),
        steady_within(
            q.compute_mat4_spec().mult_vec4_spec(point(v)).z,
            v.rotate_y_spec(full).z,
            v.z,
            v.x,
            d,
        ),
        steady_within(
            q.compute_mat4_spec().mult_vec4_spec(point(v)).x,
            v.rotate_y_spec(full).x,
            v.z,
            v.x,
            d,
        ),
        q.compute_mat4_spec().mult_vec4_spec(point(v)).w.bits == ONE_BITS,
{
    let m = q.compute_mat4_spec();
    let turn = Angle { radians: full.radians, sin: m.r1.z, cos: m.r1.x };
    lemma_quat_about_y_turns(q, turn, v);
    let by_matrix = m.mult_vec4_spec(point(v));
    let turned = v.rotate_y_spec(turn);
    lemma_equal_wholes(by_matrix.x, turned.x);
    lemma_equal_wholes(by_matrix.y, turned.y);
    lemma_equal_wholes(by_matrix.z, turned.z);
    lemma_turn_about_y_in_the_plane(v, full);
    lemma_turn_about_y_in_the_plane(v, turn);
    lemma_plane_turn_is_steady(v.z, v.x, full.sin, full.cos, turn.sin, turn.cos, d);
}

/// The matrix of a quaternion about the z axis turns a point nearly as `rotate_z` does
/// by the whole angle: where the sine and the cosine that the matrix holds lie from -1 to
/// 1 and within `d` units of `2^-149` of those of the angle, the coordinates of the product
/// are apart from those of the turned vector by no more than `d * 2^-149` and
/// `4 * 2^-24` of the sizes of the two that are turned together, and a few units; the
/// coordinate along the axis is equal. The numbers that the matrix is made of and those
/// of both turned vectors are finite.
pub proof fn lemma_quat_about_z_turns_nearly(q: Quat, full: Angle, v: Vec3, d: int)
    requires
        q.0.x.zero(),
        q.0.y.zero(),
        tame(q, q.0.z),
        finite3(v),
        full.sin.magnitude() <= 0x3f80_0000 && full.cos.magnitude() <= 0x3f80_0000,
        q.compute_mat4_spec().r2.x.magnitude() <= 0x3f80_0000,
        q.compute_mat4_spec().r1.x.magnitude() <= 0x3f80_0000,
        size(whole(q.compute_mat4_spec().r2.x) - whole(full.sin)) <= d,
        size(whole(q.compute_mat4_spec().r1.x) - whole(full.cos)) <= d,
        finite3(v.rotate_z_spec(full)),
        finite3(
            v.rotate_z_spec(
                Angle {
                    radians: full.radians,
                    sin: q.compute_mat4_spec().r2.x,
                    cos: q.compute_mat4_spec().r1.x,
                },
            ),
        ),
    ensures
        q.compute_mat4_spec().mult_vec4_spec(point(v)).z.equal(v.z),
        steady_within(
            q.compute_mat4_spec().mult_vec4_spec(point(v)).x,
            v.rotate_z_spec(full).x,
            v.x,
            v.y,
            d,
        ),
        steady_within(
            q.compute_mat4_spec().mult_vec4_spec(point(v)).y,
            v.rotate_z_spec(full).y,
            v.x,
            v.y,
            d,
        ),
        q.compute_mat4_spec().mult_vec4_spec(point(v)).w.bits == ONE_BITS,
{
    let m = q.compute_mat4_spec();
    let turn = Angle { radians: full.radians, sin: m.r2.x, cos: m.r1.x };
    lemma_quat_about_z_turns(q, turn, v);
    let by_matrix = m.mult_vec4_spec(point(v));
    let turned = v.rotate_z_spec(turn);
    lemma_equal_wholes(by_matrix.x, turned.x);
    lemma_equal_wholes(by_matrix.y, turned.y);
    lemma_equal_wholes(by_matrix.z, turned.z);
    lemma_plane_turn_is_steady(v.x, v.y, full.sin, full.cos, turn.sin, turn.cos, d);
}

/// Whether the sine and cosine of an angle are those of twice the angle of the sine `l`
/// and the cosine `w`, to within `16 * 2^-24`: the sine against `2 l w`, the cosine
/// against `1 - 2 l^2`, and both from -1 to 1.
pub open spec fn is_double(full: Angle, l: F32, w: F32) -> bool {
    &&& full.sin.magnitude() <= 0x3f80_0000
    &&& full.cos.magnitude() <= 0x3f80_0000
    &&& 0x100_0000 * size(whole(full.sin) * pow2(149) - 2 * (whole(l) * whole(w))) <= 16 * (pow2(149) * pow2(149))
    &&& 0x100_0000 * size(whole(full.cos) * pow2(149) - (pow2(149) * pow2(149) - 2 * (whole(l) * whole(l)))) <= 16 * (
        pow2(149) * pow2(149))
}

/// The sum of the squares of the four parts of a quaternion about one axis is the sum of
/// the squares of the part `l` along the axis and the scalar part `w`, where the two
/// other parts are zeros and the sum is a number that is not zero.
proof fn lemma_squares_of_two(q: Quat, l: F32, k: int)
    requires
        0 <= k < 3,
        k == 0 ==> q.0.x == l && q.0.y.zero() && q.0.z.zero(),
        k == 1 ==> q.0.y == l && q.0.x.zero() && q.0.z.zero(),
        k == 2 ==> q.0.z == l && q.0.x.zero() && q.0.y.zero(),
        squares(l, q.0.w).finite(),
        !squares(l, q.0.w).zero(),
        l.finite(),
    ensures
        q.0.length_squared_spec() == squares(l, q.0.w),
{
    let v = q.0;
    let ll = l.mul_spec(l);
    let ww = v.w.mul_spec(v.w);
    lemma_finite_parts(ll, ww);
    let xx = v.x.mul_spec(v.x);
    let yy = v.y.mul_spec(v.y);
    let zz = v.z.mul_spec(v.z);
    if k != 0 {
        lemma_mul_zero(v.x, v.x);
    }
    if k != 1 {
        lemma_mul_zero(v.y, v.y);
    }
    if k != 2 {
        lemma_mul_zero(v.z, v.z);
    }
    if k == 0 {
        lemma_add_zero(xx, yy);
        lemma_zero_keeps(xx.add_spec(yy), ll, zz);
    } else if k == 1 {
        lemma_add_zero(yy, xx);
        lemma_zero_keeps(xx.add_spec(yy), ll, zz);
    } else {
        lemma_add_zero(xx, yy);
        lemma_add_zero(zz, xx.add_spec(yy));
    }
    lemma_order(ww, ww, ww);
    lemma_add_respects_equal(xx.add_spec(yy).add_spec(zz), ll, ww, ww);
    lemma_order(v.length_squared_spec(), squares(l, v.w), squares(l, v.w));
}

/// The matrix of a quaternion about the x axis turns a point as `rotate_x` does by the
/// whole angle, to within a few rounding errors: the quaternion holds the sine and the
/// cosine of half the angle, which are those of one angle as nearly as binary32 can say,
/// and the sine and cosine of the whole angle are those of twice the half to within
/// `16 * 2^-24`. Then the coordinates of the product are apart from those of the turned
/// vector by no more than `100 * 2^-24` of the sizes of the two that are turned together,
/// and a few units; the coordinate along the axis is equal. The sine and the cosine that the matrix holds lie
/// from -1 to 1, and the numbers that the matrix is made of and those of both turned
/// vectors are finite.
pub proof fn lemma_quat_about_x_turns_as_the_angle(q: Quat, full: Angle, v: Vec3)
    requires
        q.0.y.zero(),
        q.0.z.zero(),
        tame(q, q.0.x),
        near_unit(q.0.x, q.0.w),
        is_double(full, q.0.x, q.0.w),
        finite3(v),
        q.compute_mat4_spec().r3.y.magnitude() <= 0x3f80_0000,
        q.compute_mat4_spec().r2.y.magnitude() <= 0x3f80_0000,
        finite3(v.rotate_x_spec(full)),
        finite3(
            v.rotate_x_spec(
                Angle {
                    radians: full.radians,
                    sin: q.compute_mat4_spec().r3.y,
                    cos: q.compute_mat4_spec().r2.y,
                },
            ),
        ),
    ensures
        q.compute_mat4_spec().mult_vec4_spec(point(v)).x.equal(v.x),
        steady_within(
            q.compute_mat4_spec().mult_vec4_spec(point(v)).y,
            v.rotate_x_spec(full).y,
            v.y,
            v.z,
            (96 * pow2(125)) as int,
        ),
        steady_within(
            q.compute_mat4_spec().mult_vec4_spec(point(v)).z,
            v.rotate_x_spec(full).z,
            v.y,
            v.z,
            (96 * pow2(125)) as int,
        ),
        q.compute_mat4_spec().mult_vec4_spec(point(v)).w.bits == ONE_BITS,
{
    let l = q.0.x;
    let w = q.0.w;
    let m = q.compute_mat4_spec();
    let k = pow2(149) as int;
    let kk = k * k;
    lemma_pow2_pos(149);
    // the squares together, and the scale
    let one = F32 { bits: ONE_BITS };
    assert(one.significand() == 0x80_0000 && one.exponent() == -23);
    lemma_sizes_order(l, one);
    lemma_sizes_order(w, one);
    lemma_whole(one);
    lemma_whole(l);
    lemma_whole(w);
    lemma2_to64();
    lemma_pow2_adds(24, 125);
    lemma_squares_are_kept(l, w);
    lemma_squares_of_two(q, l, 0);
    lemma_whole(squares(l, w));
    assert(q.matrix_scale_spec() == (F32 { bits: 0x4000_0000 }).div_spec(squares(l, w)));
    lemma_doubled_angle(l, w);
    lemma_quat_about_x_is_a_turn(q);
    lemma_equal_wholes(m.r3.y, doubled_sine(l, w));
    lemma_equal_wholes(m.r2.y, doubled_cosine(l, w));
    // against the sine and the cosine of the whole angle
    let ds = whole(m.r3.y) - whole(full.sin);
    let dc = whole(m.r2.y) - whole(full.cos);
    lemma_scaled_error(0x100_0000, ds, k, 0x100_0000 * size(ds));
    lemma_scaled_error(0x100_0000, dc, k, 0x100_0000 * size(dc));
    assert(ds * k == whole(m.r3.y) * k - whole(full.sin) * k && dc * k == whole(m.r2.y) * k - whole(
        full.cos,
    ) * k) by (nonlinear_arith)
        requires
            ds == whole(m.r3.y) - whole(full.sin),
            dc == whole(m.r2.y) - whole(full.cos),
    ;
    let d = (96 * pow2(125)) as int;
    assert(size(ds * k) <= size(whole(doubled_sine(l, w)) * k - 2 * (whole(l) * whole(w))) + size(
        whole(full.sin) * k - 2 * (whole(l) * whole(w)),
    ));
    assert(size(dc * k) <= size(whole(doubled_cosine(l, w)) * k - (kk - 2 * (whole(l) * whole(l)))) + size(
        whole(full.cos) * k - (kk - 2 * (whole(l) * whole(l))),
    ));
    assert(size(ds) <= d && size(dc) <= d) by (nonlinear_arith)
        requires
            0x100_0000 * (size(ds) * k) <= 96 * (k * k),
            0x100_0000 * (size(dc) * k) <= 96 * (k * k),
            k == 0x100_0000 * pow2(125),
            d == 96 * pow2(125),
            k > 0,
    ;
    lemma_quat_about_x_turns_nearly(q, full, v, d);
}

/// The matrix of a quaternion about the y axis turns a point as `rotate_y` does by the
/// whole angle, to within a few rounding errors: the quaternion holds the sine and the
/// cosine of half the angle, which are those of one angle as nearly as binary32 can say,
/// and the sine and cosine of the whole angle are those of twice the half to within
/// `16 * 2^-24`. Then the coordinates of the product are apart from those of the turned
/// vector by no more than `100 * 2^-24` of the sizes of the two that are turned together,
/// and a few units; the coordinate along the axis is equal. The sine and the cosine that the matrix holds lie
/// from -1 to 1, and the numbers that the matrix is made of and those of both turned
/// vectors are finite.
pub proof fn lemma_quat_about_y_turns_as_the_angle(q: Quat, full: Angle, v: Vec3)
    requires
        q.0.x.zero(),
        q.0.z.zero(),
        tame(q, q.0.y),
        near_unit(q.0.y, q.0.w),
        is_double(full, q.0.y, q.0.w),
        finite3(v),
        q.compute_mat4_spec().r1.z.magnitude() <= 0x3f80_0000,
        q.compute_mat4_spec().r1.x.magnitude() <= 0x3f80_0000,
        finite3(v.rotate_y_spec(full)),
        finite3(
            v.rotate_y_spec(
                Angle {
                    radians: full.radians,
                    sin: q.compute_mat4_spec().r1.z,
                    cos: q.compute_mat4_spec().r1.x,
                },
            ),
        ),
    ensures
        q.compute_mat4_spec().mult_vec4_spec(point(v)).y.equal(v.y),
        steady_within(
            q.compute_mat4_spec().mult_vec4_spec(point(v)).z,
            v.rotate_y_spec(full).z,
            v.z,
            v.x,
            (96 * pow2(125)) as int,
        ),
        steady_within(
            q.compute_mat4_spec().mult_vec4_spec(point(v)).x,
            v.rotate_y_spec(full).x,
            v.z,
            v.x,
            (96 * pow2(125)) as int,
        ),
        q.compute_mat4_spec().mult_vec4_spec(point(v)).w.bits == ONE_BITS,
{
    let l = q.0.y;
    let w = q.0.w;
    let m = q.compute_mat4_spec();
    let k = pow2(149) as int;
    let kk = k * k;
    lemma_pow2_pos(149);
    // the squares together, and the scale
    let one = F32 { bits: ONE_BITS };
    assert(one.significand() == 0x80_0000 && one.exponent() == -23);
    lemma_sizes_order(l, one);
    lemma_sizes_order(w, one);
    lemma_whole(one);
    lemma_whole(l);
    lemma_whole(w);
    lemma2_to64();
    lemma_pow2_adds(24, 125);
    lemma_squares_are_kept(l, w);
    lemma_squares_of_two(q, l, 1);
    lemma_whole(squares(l, w));
    assert(q.matrix_scale_spec() == (F32 { bits: 0x4000_0000 }).div_spec(squares(l, w)));
    lemma_doubled_angle(l, w);
    lemma_quat_about_y_is_a_turn(q);
    lemma_equal_wholes(m.r1.z, doubled_sine(l, w));
    lemma_equal_wholes(m.r1.x, doubled_cosine(l, w));
    // against the sine and the cosine of the whole angle
    let ds = whole(m.r1.z) - whole(full.sin);
    let dc = whole(m.r1.x) - whole(full.cos);
    lemma_scaled_error(0x100_0000, ds, k, 0x100_0000 * size(ds));
    lemma_scaled_error(0x100_0000, dc, k, 0x100_0000 * size(dc));
    assert(ds * k == whole(m.r1.z) * k - whole(full.sin) * k && dc * k == whole(m.r1.x) * k - whole(
        full.cos,
    ) * k) by (nonlinear_arith)
        requires
            ds == whole(m.r1.z) - whole(full.sin),
            dc == whole(m.r1.x) - whole(full.cos),
    ;
    let d = (96 * pow2(125)) as int;
    assert(size(ds * k) <= size(whole(doubled_sine(l, w)) * k - 2 * (whole(l) * whole(w))) + size(
        whole(full.sin) * k - 2 * (whole(l) * whole(w)),
    ));
    assert(size(dc * k) <= size(whole(doubled_cosine(l, w)) * k - (kk - 2 * (whole(l) * whole(l)))) + size(
        whole(full.cos) * k - (kk - 2 * (whole(l) * whole(l))),
    ));
    assert(size(ds) <= d && size(dc) <= d) by (nonlinear_arith)
        requires
            0x100_0000 * (size(ds) * k) <= 96 * (k * k),
            0x100_0000 * (size(dc) * k) <= 96 * (k * k),
            k == 0x100_0000 * pow2(125),
            d == 96 * pow2(125),
            k > 0,
    ;
    lemma_quat_about_y_turns_nearly(q, full, v, d);
}

/// The matrix of a quaternion about the z axis turns a point as `rotate_z` does by the
/// whole angle, to within a few rounding errors: the quaternion holds the sine and the
/// cosine of half the angle, which are those of one angle as nearly as binary32 can say,
/// and the sine and cosine of the whole angle are those of twice the half to within
/// `16 * 2^-24`. Then the coordinates of the product are apart from those of the turned
/// vector by no more than `100 * 2^-24` of the sizes of the two that are turned together,
/// and a few units; the coordinate along the axis is equal. The sine and the cosine that the matrix holds lie
/// from -1 to 1, and the numbers that the matrix is made of and those of both turned
/// vectors are finite.
pub proof fn lemma_quat_about_z_turns_as_the_angle(q: Quat, full: Angle, v: Vec3)
    requires
        q.0.x.zero(),
        q.0.y.zero(),
        tame(q, q.0.z),
        near_unit(q.0.z, q.0.w),
        is_double(full, q.0.z, q.0.w),
        finite3(v),
        q.compute_mat4_spec().r2.x.magnitude() <= 0x3f80_0000,
        q.compute_mat4_spec().r1.x.magnitude() <= 0x3f80_0000,
        finite3(v.rotate_z_spec(full)),
        finite3(
            v.rotate_z_spec(
                Angle {
                    radians: full.radians,
                    sin: q.compute_mat4_spec().r2.x,
                    cos: q.compute_mat4_spec().r1.x,
                },
            ),
        ),
    ensures
        q.compute_mat4_spec().mult_vec4_spec(point(v)).z.equal(v.z),
        steady_within(
            q.compute_mat4_spec().mult_vec4_spec(point(v)).x,
            v.rotate_z_spec(full).x,
            v.x,
            v.y,
            (96 * pow2(125)) as int,
        ),
        steady_within(
            q.compute_mat4_spec().mult_vec4_spec(point(v)).y,
            v.rotate_z_spec(full).y,
            v.x,
            v.y,
            (96 * pow2(125)) as int,
        ),
        q.compute_mat4_spec().mult_vec4_spec(point(v)).w.bits == ONE_BITS,
{
    let l = q.0.z;
    let w = q.0.w;
    let m = q.compute_mat4_spec();
    let k = pow2(149) as int;
    let kk = k * k;
    lemma_pow2_pos(149);
    // the squares together, and the scale
    let one = F32 { bits: ONE_BITS };
    assert(one.significand() == 0x80_0000 && one.exponent() == -23);
    lemma_sizes_order(l, one);
    lemma_sizes_order(w, one);
    lemma_whole(one);
    lemma_whole(l);
    lemma_whole(w);
    lemma2_to64();
    lemma_pow2_adds(24, 125);
    lemma_squares_are_kept(l, w);
    lemma_squares_of_two(q, l, 2);
    lemma_whole(squares(l, w));
    assert(q.matrix_scale_spec() == (F32 { bits: 0x4000_0000 }).div_spec(squares(l, w)));
    lemma_doubled_angle(l, w);
    lemma_quat_about_z_is_a_turn(q);
    lemma_equal_wholes(m.r2.x, doubled_sine(l, w));
    lemma_equal_wholes(m.r1.x, doubled_cosine(l, w));
    // against the sine and the cosine of the whole angle
    let ds = whole(m.r2.x) - whole(full.sin);
    let dc = whole(m.r1.x) - whole(full.cos);
    lemma_scaled_error(0x100_0000, ds, k, 0x100_0000 * size(ds));
    lemma_scaled_error(0x100_0000, dc, k, 0x100_0000 * size(dc));
    assert(ds * k == whole(m.r2.x) * k - whole(full.sin) * k && dc * k == whole(m.r1.x) * k - whole(
        full.cos,
    ) * k) by (nonlinear_arith)
        requires
            ds == whole(m.r2.x) - whole(full.sin),
            dc == whole(m.r1.x) - whole(full.cos),
    ;
    let d = (96 * pow2(125)) as int;
    assert(size(ds * k) <= size(whole(doubled_sine(l, w)) * k - 2 * (whole(l) * whole(w))) + size(
        whole(full.sin) * k - 2 * (whole(l) * whole(w)),
    ));
    assert(size(dc * k) <= size(whole(doubled_cosine(l, w)) * k - (kk - 2 * (whole(l) * whole(l)))) + size(
        whole(full.cos) * k - (kk - 2 * (whole(l) * whole(l))),
    ));
    assert(size(ds) <= d && size(dc) <= d) by (nonlinear_arith)
        requires
            0x100_0000 * (size(ds) * k) <= 96 * (k * k),
            0x100_0000 * (size(dc) * k) <= 96 * (k * k),
            k == 0x100_0000 * pow2(125),
            d == 96 * pow2(125),
            k > 0,
    ;
    lemma_quat_about_z_turns_nearly(q, full, v, d);
}

} // verus!
