//! A flock: boids that keep apart, keep together and keep pace, inside a box.

use crate::camera::Camera;
use crate::error_laws::{
    close, lemma_equal_wholes, lemma_finite_parts, lemma_product_is_monotone, lemma_signs, lemma_sum_error,
    lemma_sum_is_monotone, lemma_whole, size, whole,
};
use crate::math::length_laws::{has_length, lemma_length_of_scaled};
use crate::math::transform::{
    finite3, in_depth_range, triangle_world_to_screen_space_clipped, triangle_world_to_screen_space_clipped_spec,
    vertex_camera_to_screen_space_spec, vertex_world_to_camera_space_spec, vertex_world_to_screen_space_clipped,
};
use crate::math::vec::Vec3;
use crate::raster::{box_triangle_indices, box_triangles, Fill, Line, LinearRgb, ScreenVertex, Srgb, Triangle};
use crate::single::{F32, ONE_BITS, TWO_BITS};
use crate::single_laws::{
    lemma_add_cancels, lemma_add_neg, lemma_add_respects_equal, lemma_add_zero, lemma_difference_is_not_zero,
    lemma_div_one, lemma_finite_gives_numbers, lemma_from_nat_one, lemma_mul_neg, lemma_mul_respects_equal,
    lemma_mul_zero, lemma_neg, lemma_neg_respects_equal, lemma_order, lemma_zero_keeps,
};
use crate::turn_errors::lemma_turned_first_error;
use vstd::arithmetic::power2::{lemma2_to64, lemma_pow2_adds, lemma_pow2_pos, pow2};
use vstd::prelude::*;

verus! {

/// Half the side of the box that holds the flock: the bits of 240.
pub const BOUNDS_BITS: u32 = 0x4370_0000;

/// The bits of -240.
pub const NEG_BOUNDS_BITS: u32 = 0xc370_0000;

/// The greatest speed: the bits of 100.
pub const MAX_SPEED_BITS: u32 = 0x42c8_0000;

/// The greatest speed squared: the bits of 10000.
pub const MAX_SPEED_SQ_BITS: u32 = 0x461c_4000;

/// The least speed: the bits of 60.
pub const MIN_SPEED_BITS: u32 = 0x4270_0000;

/// The least speed squared: the bits of 3600.
pub const MIN_SPEED_SQ_BITS: u32 = 0x4561_0000;

/// One boid.
#[derive(Clone, Copy, Debug)]
pub struct Boid {
    pub translation: Vec3,
    pub velocity: Vec3,
}

impl Default for Boid {
    /// A boid at rest at the origin.
    fn default() -> (r: Boid)
        ensures
            r == (Boid { translation: Vec3::zero_spec(), velocity: Vec3::zero_spec() }),
    {
        Boid { translation: Vec3::zero(), velocity: Vec3::zero() }
    }
}

/// The flock and the numbers that steer it.
pub struct BoidMemory {
    pub boids: Vec<Boid>,
    /// The 36 vertices of the twelve triangles that one boid is drawn with.
    pub vertices: [Vec3; 36],
    /// How near a wall a boid turns back.
    pub margin: F32,
    /// By how much a boid near a wall turns back.
    pub turn_factor: F32,
    pub separation_factor: F32,
    pub cohesion_factor: F32,
    pub alignment_factor: F32,
    /// How far a boid sees, squared.
    pub view_radius_squared: F32,
    /// How near is too near, squared.
    pub separation_radius_squared: F32,
}

/// What a boid gathers from the others: the sum of the ways off those too near, the sums
/// of the positions and of the velocities of those it sees, and how many it sees.
pub struct Gathered {
    pub separation: Vec3,
    pub cohesion: Vec3,
    pub alignment: Vec3,
    pub count: nat,
}

/// What boid `i` gathers from the first `j` boids, itself left out, in their order.
pub open spec fn gathered(m: BoidMemory, boids: Seq<Boid>, i: int, j: nat) -> Gathered
    decreases j,
{
    if j == 0 {
        Gathered {
            separation: Vec3::zero_spec(),
            cohesion: Vec3::zero_spec(),
            alignment: Vec3::zero_spec(),
            count: 0,
        }
    } else {
        let before = gathered(m, boids, i, (j - 1) as nat);
        let k = j - 1;
        if k == i {
            before
        } else {
            let d = boids[i].translation.distance_squared_spec(boids[k].translation);
            let separation = if d.le_spec(m.separation_radius_squared) {
                before.separation.add_spec(boids[i].translation.sub_spec(boids[k].translation))
            } else {
                before.separation
            };
            if d.le_spec(m.view_radius_squared) {
                Gathered {
                    separation,
                    cohesion: before.cohesion.add_spec(boids[k].translation),
                    alignment: before.alignment.add_spec(boids[k].velocity),
                    count: before.count + 1,
                }
            } else {
                Gathered { separation, ..before }
            }
        }
    }
}

/// By how much the velocity of boid `i` changes: the separation times its factor; and,
/// where the boid sees another, the way to the mean position of those it sees times the
/// cohesion factor, and the difference to their mean velocity times the alignment factor.
pub open spec fn velocity_change(m: BoidMemory, boids: Seq<Boid>, i: int) -> Vec3 {
    let g = gathered(m, boids, i, boids.len());
    let apart = g.separation.mul_scalar_spec(m.separation_factor);
    if g.count > 0 {
        let n = F32::from_nat_spec(g.count);
        apart.add_spec(
            g.cohesion.div_scalar_spec(n).sub_spec(boids[i].translation).mul_scalar_spec(m.cohesion_factor),
        ).add_spec(
            g.alignment.div_scalar_spec(n).sub_spec(boids[i].velocity).mul_scalar_spec(m.alignment_factor),
        )
    } else {
        apart
    }
}

/// The flock after the forces: every velocity changed by what the boid gathered from the
/// flock as it was before; no position moves.
pub open spec fn boid_forces_spec(m: BoidMemory, boids: Seq<Boid>) -> Seq<Boid> {
    Seq::new(
        boids.len(),
        |i: int|
            Boid {
                translation: boids[i].translation,
                velocity: boids[i].velocity.add_spec(velocity_change(m, boids, i)),
            },
    )
}

/// Whether boid `i` has no other boid within its view or too near, among the first `j`.
pub open spec fn alone(m: BoidMemory, boids: Seq<Boid>, i: int, j: nat) -> bool {
    forall|k: int|
        0 <= k < j && k != i ==> {
            let d = #[trigger] boids[i].translation.distance_squared_spec(boids[k].translation);
            !d.le_spec(m.separation_radius_squared) && !d.le_spec(m.view_radius_squared)
        }
}

/// A boid with no other in reach gathers nothing.
pub proof fn lemma_alone_gathers_nothing(m: BoidMemory, boids: Seq<Boid>, i: int, j: nat)
    requires
        alone(m, boids, i, j),
    ensures
        gathered(m, boids, i, j) == (Gathered {
            separation: Vec3::zero_spec(),
            cohesion: Vec3::zero_spec(),
            alignment: Vec3::zero_spec(),
            count: 0,
        }),
    decreases j,
{
    if j > 0 {
        lemma_alone_gathers_nothing(m, boids, i, (j - 1) as nat);
        let k = j - 1;
        if k != i {
            let d = boids[i].translation.distance_squared_spec(boids[k].translation);
            assert(!d.le_spec(m.separation_radius_squared) && !d.le_spec(m.view_radius_squared));
        }
    }
}

/// The forces leave a distant boid as it was: a boid with no other within its view or
/// too near keeps a velocity equal to the one it had, where that velocity holds no NaN
/// and the separation factor is finite.
pub proof fn lemma_distant_boid_keeps_velocity(m: BoidMemory, boids: Seq<Boid>, i: int)
    requires
        0 <= i < boids.len(),
        alone(m, boids, i, boids.len()),
        m.separation_factor.finite(),
        !boids[i].velocity.x.nan() && !boids[i].velocity.y.nan() && !boids[i].velocity.z.nan(),
    ensures
        boid_forces_spec(m, boids)[i].velocity.equal(boids[i].velocity),
        boid_forces_spec(m, boids)[i].translation == boids[i].translation,
{
    lemma_alone_gathers_nothing(m, boids, i, boids.len());
    let zero = F32 { bits: 0 };
    lemma_mul_zero(m.separation_factor, zero);
    let change = velocity_change(m, boids, i);
    assert(change.x.zero() && change.y.zero() && change.z.zero());
    lemma_add_zero(boids[i].velocity.x, change.x);
    lemma_add_zero(boids[i].velocity.y, change.y);
    lemma_add_zero(boids[i].velocity.z, change.z);
}

/// Whether boid `j` is the only one too near to boid `i`, among the first `n`.
pub open spec fn only_near(m: BoidMemory, boids: Seq<Boid>, i: int, j: int, n: nat) -> bool {
    forall|k: int|
        0 <= k < n && k != i ==> (#[trigger] boids[i].translation.distance_squared_spec(
            boids[k].translation,
        )).le_spec(m.separation_radius_squared) == (k == j)
}

/// What a boid gathers as separation where one other boid alone is too near: nothing
/// before that boid is met, and the way off it from then on.
pub proof fn lemma_near_pair_separation(m: BoidMemory, boids: Seq<Boid>, i: int, j: int, n: nat)
    requires
        0 <= i < boids.len(),
        0 <= j < boids.len(),
        i != j,
        only_near(m, boids, i, j, n),
    ensures
        gathered(m, boids, i, n).separation == if n > j {
            Vec3::zero_spec().add_spec(boids[i].translation.sub_spec(boids[j].translation))
        } else {
            Vec3::zero_spec()
        },
    decreases n,
{
    if n > 0 {
        lemma_near_pair_separation(m, boids, i, j, (n - 1) as nat);
        let k = n - 1;
        if k != i {
            let d = boids[i].translation.distance_squared_spec(boids[k].translation);
            assert(d.le_spec(m.separation_radius_squared) == (k == j));
        }
    }
}

/// Two boids that are too near gather the way apart: where boid `j` alone is too near to
/// boid `i`, the separation that boid `i` gathers equals its place less the place of
/// boid `j`, and along every axis on which the two places differ it is not zero. The
/// places are of finite numbers.
pub proof fn lemma_near_boids_part(m: BoidMemory, boids: Seq<Boid>, i: int, j: int)
    requires
        0 <= i < boids.len(),
        0 <= j < boids.len(),
        i != j,
        only_near(m, boids, i, j, boids.len()),
        boids[i].translation.x.finite() && boids[i].translation.y.finite() && boids[i].translation.z.finite(),
        boids[j].translation.x.finite() && boids[j].translation.y.finite() && boids[j].translation.z.finite(),
    ensures
        ({
            let apart = gathered(m, boids, i, boids.len()).separation;
            let p = boids[i].translation;
            let q = boids[j].translation;
            &&& !p.x.sub_spec(q.x).nan() ==> apart.x.equal(p.x.sub_spec(q.x))
            &&& !p.y.sub_spec(q.y).nan() ==> apart.y.equal(p.y.sub_spec(q.y))
            &&& !p.z.sub_spec(q.z).nan() ==> apart.z.equal(p.z.sub_spec(q.z))
            &&& !p.x.equal(q.x) ==> !apart.x.zero() && !apart.x.nan()
            &&& !p.y.equal(q.y) ==> !apart.y.zero() && !apart.y.nan()
            &&& !p.z.equal(q.z) ==> !apart.z.zero() && !apart.z.nan()
        }),
{
    let p = boids[i].translation;
    let q = boids[j].translation;
    let zero = F32 { bits: 0 };
    lemma_near_pair_separation(m, boids, i, j, boids.len());
    if !p.x.sub_spec(q.x).nan() {
        lemma_add_zero(p.x.sub_spec(q.x), zero);
    }
    if !p.y.sub_spec(q.y).nan() {
        lemma_add_zero(p.y.sub_spec(q.y), zero);
    }
    if !p.z.sub_spec(q.z).nan() {
        lemma_add_zero(p.z.sub_spec(q.z), zero);
    }
    if !p.x.equal(q.x) {
        lemma_difference_is_not_zero(p.x, q.x);
    }
    if !p.y.equal(q.y) {
        lemma_difference_is_not_zero(p.y, q.y);
    }
    if !p.z.equal(q.z) {
        lemma_difference_is_not_zero(p.z, q.z);
    }
}

/// Whether boid `j` is the only one that boid `i` sees, and is too near to it, among the
/// first `n`: no other lies within the view of boid `i` or too near.
pub open spec fn only_pair(m: BoidMemory, boids: Seq<Boid>, i: int, j: int, n: nat) -> bool {
    forall|k: int|
        0 <= k < n && k != i ==> {
            let d = #[trigger] boids[i].translation.distance_squared_spec(boids[k].translation);
            d.le_spec(m.separation_radius_squared) == (k == j) && d.le_spec(m.view_radius_squared) == (k == j)
        }
}

/// What a boid gathers where it sees one other boid alone, which is too near: nothing
/// before that boid is met, and from then on the way off it, its position and its
/// velocity, each added to zero, and the count of one.
pub proof fn lemma_pair_gathered(m: BoidMemory, boids: Seq<Boid>, i: int, j: int, n: nat)
    requires
        0 <= i < boids.len(),
        0 <= j < boids.len(),
        i != j,
        only_pair(m, boids, i, j, n),
    ensures
        gathered(m, boids, i, n) == if n > j {
            Gathered {
                separation: Vec3::zero_spec().add_spec(boids[i].translation.sub_spec(boids[j].translation)),
                cohesion: Vec3::zero_spec().add_spec(boids[j].translation),
                alignment: Vec3::zero_spec().add_spec(boids[j].velocity),
                count: 1,
            }
        } else {
            Gathered {
                separation: Vec3::zero_spec(),
                cohesion: Vec3::zero_spec(),
                alignment: Vec3::zero_spec(),
                count: 0,
            }
        },
    decreases n,
{
    if n > 0 {
        lemma_pair_gathered(m, boids, i, j, (n - 1) as nat);
        let k = n - 1;
        if k != i {
            let d = boids[i].translation.distance_squared_spec(boids[k].translation);
            assert(d.le_spec(m.separation_radius_squared) == (k == j) && d.le_spec(m.view_radius_squared) == (k
                == j));
        }
    }
}

/// One component of the change of a velocity where one other boid alone is seen and is
/// too near, and flies as the boid does: `p` and `q` are the places of the two along an
/// axis, `v` and `w` their velocities, and `sf`, `cf`, `af` the three factors. The change
/// is as the flock makes it of the sums that the boid gathered.
pub open spec fn pair_change(p: F32, q: F32, v: F32, w: F32, sf: F32, cf: F32, af: F32) -> F32 {
    let zero = F32 { bits: 0 };
    let one = F32 { bits: ONE_BITS };
    zero.add_spec(p.sub_spec(q)).mul_spec(sf).add_spec(
        zero.add_spec(q).div_spec(one).sub_spec(p).mul_spec(cf),
    ).add_spec(zero.add_spec(w).div_spec(one).sub_spec(v).mul_spec(af))
}

/// The change of one component for a pair that flies alike is the way off the other
/// boid times the separation factor, less that way times the cohesion factor: with `d`
/// for `p - q`, the change equals `d sf - d cf`. The two velocities are equal, and all
/// the numbers and the result are finite.
pub proof fn lemma_pair_change(p: F32, q: F32, v: F32, w: F32, sf: F32, cf: F32, af: F32)
    requires
        p.finite() && q.finite() && v.finite() && w.finite() && sf.finite() && cf.finite() && af.finite(),
        v.equal(w),
        p.sub_spec(q).finite(),
        p.sub_spec(q).mul_spec(sf).sub_spec(p.sub_spec(q).mul_spec(cf)).finite(),
    ensures
        pair_change(p, q, v, w, sf, cf, af).equal(p.sub_spec(q).mul_spec(sf).sub_spec(p.sub_spec(q).mul_spec(cf))),
{
    let zero = F32 { bits: 0 };
    let one = F32 { bits: ONE_BITS };
    let d = p.sub_spec(q);
    let target = d.mul_spec(sf).sub_spec(d.mul_spec(cf));
    lemma_finite_parts(d.mul_spec(sf), d.mul_spec(cf).neg_spec());
    // the way off, times the separation factor
    lemma_add_zero(d, zero);
    lemma_order(sf, sf, sf);
    lemma_order(cf, cf, cf);
    lemma_order(af, af, af);
    lemma_mul_respects_equal(zero.add_spec(d), d, sf, sf);
    // the way to the other boid, times the cohesion factor
    lemma_add_zero(q, zero);
    lemma_order(zero.add_spec(q), q, q);
    lemma_div_one(zero.add_spec(q));
    lemma_order(zero.add_spec(q).div_spec(one), zero.add_spec(q), q);
    lemma_order(p, p, p);
    lemma_neg_respects_equal(p, p);
    lemma_finite_gives_numbers(q, p);
    lemma_add_respects_equal(zero.add_spec(q).div_spec(one), q, p.neg_spec(), p.neg_spec());
    lemma_add_neg(q, p);
    let back = zero.add_spec(q).div_spec(one).sub_spec(p);
    lemma_order(back, q.sub_spec(p), d.neg_spec());
    lemma_mul_respects_equal(back, d.neg_spec(), cf, cf);
    lemma_finite_gives_numbers(d, cf);
    lemma_mul_neg(d, cf);
    // the difference of the velocities, times the alignment factor
    lemma_add_zero(w, zero);
    lemma_order(zero.add_spec(w), w, w);
    lemma_div_one(zero.add_spec(w));
    lemma_order(zero.add_spec(w).div_spec(one), zero.add_spec(w), w);
    lemma_order(zero.add_spec(w).div_spec(one), w, v);
    lemma_order(v, w, zero.add_spec(w).div_spec(one));
    lemma_neg_respects_equal(zero.add_spec(w).div_spec(one), v);
    lemma_neg(v, v);
    lemma_add_cancels(v.neg_spec(), zero.add_spec(w).div_spec(one));
    lemma_mul_zero(af, zero.add_spec(w).div_spec(one).sub_spec(v));
    // together
    lemma_add_respects_equal(
        zero.add_spec(d).mul_spec(sf),
        d.mul_spec(sf),
        back.mul_spec(cf),
        d.mul_spec(cf).neg_spec(),
    );
    lemma_zero_keeps(
        zero.add_spec(d).mul_spec(sf).add_spec(back.mul_spec(cf)),
        target,
        zero.add_spec(w).div_spec(one).sub_spec(v).mul_spec(af),
    );
}

/// Two boids that are too near and fly alike are driven apart: where each sees the other
/// alone, which is too near, and their velocities are equal, the velocity of boid `i`
/// changes along each axis by `d sf - d cf`, with `d` its place less the place of boid
/// `j`, and the velocity of boid `j` by the same with the sign flipped. The places, the
/// velocities, the factors, the way `d` and the change are of finite numbers.
pub proof fn lemma_near_pair_is_driven_apart(m: BoidMemory, boids: Seq<Boid>, i: int, j: int)
    requires
        0 <= i < boids.len(),
        0 <= j < boids.len(),
        i != j,
        only_pair(m, boids, i, j, boids.len()),
        only_pair(m, boids, j, i, boids.len()),
        finite3(boids[i].translation) && finite3(boids[j].translation),
        finite3(boids[i].velocity) && finite3(boids[j].velocity),
        boids[i].velocity.equal(boids[j].velocity),
        m.separation_factor.finite() && m.cohesion_factor.finite() && m.alignment_factor.finite(),
        finite3(boids[i].translation.sub_spec(boids[j].translation)),
        finite3(pair_drive(m, boids[i].translation.sub_spec(boids[j].translation))),
    ensures
        velocity_change(m, boids, i).equal(pair_drive(m, boids[i].translation.sub_spec(boids[j].translation))),
        velocity_change(m, boids, j).equal(
            pair_drive(m, boids[i].translation.sub_spec(boids[j].translation)).neg_spec(),
        ),
{
    let p = boids[i].translation;
    let q = boids[j].translation;
    let v = boids[i].velocity;
    let w = boids[j].velocity;
    let sf = m.separation_factor;
    let cf = m.cohesion_factor;
    let af = m.alignment_factor;
    lemma_from_nat_one();
    lemma_pair_gathered(m, boids, i, j, boids.len());
    lemma_pair_gathered(m, boids, j, i, boids.len());
    assert(velocity_change(m, boids, i).x == pair_change(p.x, q.x, v.x, w.x, sf, cf, af));
    assert(velocity_change(m, boids, i).y == pair_change(p.y, q.y, v.y, w.y, sf, cf, af));
    assert(velocity_change(m, boids, i).z == pair_change(p.z, q.z, v.z, w.z, sf, cf, af));
    assert(velocity_change(m, boids, j).x == pair_change(q.x, p.x, w.x, v.x, sf, cf, af));
    assert(velocity_change(m, boids, j).y == pair_change(q.y, p.y, w.y, v.y, sf, cf, af));
    assert(velocity_change(m, boids, j).z == pair_change(q.z, p.z, w.z, v.z, sf, cf, af));
    lemma_pair_change(p.x, q.x, v.x, w.x, sf, cf, af);
    lemma_pair_change(p.y, q.y, v.y, w.y, sf, cf, af);
    lemma_pair_change(p.z, q.z, v.z, w.z, sf, cf, af);
    lemma_drive_flips(p.x, q.x, sf, cf);
    lemma_drive_flips(p.y, q.y, sf, cf);
    lemma_drive_flips(p.z, q.z, sf, cf);
    lemma_order(v.x, w.x, w.x);
    lemma_order(v.y, w.y, w.y);
    lemma_order(v.z, w.z, w.z);
    lemma_pair_change(q.x, p.x, w.x, v.x, sf, cf, af);
    lemma_pair_change(q.y, p.y, w.y, v.y, sf, cf, af);
    lemma_pair_change(q.z, p.z, w.z, v.z, sf, cf, af);
}

/// What drives a boid off another that is too near, along the way `d` off it: along each
/// axis `d sf - d cf`, the way times the separation factor less the way times the
/// cohesion factor.
pub open spec fn pair_drive(m: BoidMemory, d: Vec3) -> Vec3 {
    Vec3 {
        x: d.x.mul_spec(m.separation_factor).sub_spec(d.x.mul_spec(m.cohesion_factor)),
        y: d.y.mul_spec(m.separation_factor).sub_spec(d.y.mul_spec(m.cohesion_factor)),
        z: d.z.mul_spec(m.separation_factor).sub_spec(d.z.mul_spec(m.cohesion_factor)),
    }
}

/// The drive is the way off times the difference of the two factors, but for rounding:
/// along the axis of `d`, `d sf - d cf`, times one, is within `4 * 2^-24` of the size of
/// `d`, and a unit, of `d (sf - cf)`. The factors lie from -1 to 1 and the drive is
/// finite. Values are whole numbers of units of `2^-149`, in which one is `2^149`.
pub proof fn lemma_drive_is_near(d: F32, sf: F32, cf: F32)
    requires
        d.finite(),
        sf.magnitude() <= ONE_BITS,
        cf.magnitude() <= ONE_BITS,
        d.mul_spec(sf).sub_spec(d.mul_spec(cf)).finite(),
    ensures
        0x100_0000 * size(
            whole(d.mul_spec(sf).sub_spec(d.mul_spec(cf))) * pow2(149) - whole(d) * (whole(sf) - whole(cf)),
        ) <= 4 * (size(whole(d)) * pow2(149)) + 2 * pow2(172),
{
    lemma_turned_first_error(d, d, cf, sf);
    assert(whole(d) * whole(sf) - whole(d) * whole(cf) == whole(d) * (whole(sf) - whole(cf))) by (nonlinear_arith);
    assert((size(whole(d)) + size(whole(d))) * pow2(149) == 2 * (size(whole(d)) * pow2(149))) by (nonlinear_arith);
}

/// The drive points off the other boid, where the separation factor is at least the
/// cohesion factor and neither is negative: along an axis on which the way `d` off the
/// other boid is not negative, `d sf - d cf` is not below zero, and where `d` is negative
/// it is not above. The numbers and the drive are finite.
pub proof fn lemma_drive_points_off(d: F32, sf: F32, cf: F32)
    requires
        d.finite() && sf.finite() && cf.finite(),
        !sf.negative() && !cf.negative(),
        cf.le_spec(sf),
        d.mul_spec(sf).sub_spec(d.mul_spec(cf)).finite(),
    ensures
        !d.negative() ==> whole(d.mul_spec(sf).sub_spec(d.mul_spec(cf))) >= 0,
        d.negative() ==> whole(d.mul_spec(sf).sub_spec(d.mul_spec(cf))) <= 0,
{
    lemma_finite_parts(d.mul_spec(sf), d.mul_spec(cf).neg_spec());
    lemma_whole(d.mul_spec(cf));
    lemma_sum_error(d.mul_spec(sf), d.mul_spec(cf).neg_spec());
    if !d.negative() {
        lemma_product_is_monotone(d, cf, sf);
    } else {
        let a = d.neg_spec();
        lemma_neg(d, d);
        lemma_finite_gives_numbers(a, sf);
        lemma_finite_gives_numbers(a, cf);
        lemma_mul_neg(a, sf);
        lemma_mul_neg(a, cf);
        lemma_neg(a.mul_spec(sf), a.mul_spec(sf));
        lemma_product_is_monotone(a, cf, sf);
        lemma_whole(a.mul_spec(sf));
        lemma_whole(a.mul_spec(cf));
    }
}

/// Two boids that are too near and fly alike get no nearer: under the conditions of
/// `lemma_near_pair_is_driven_apart`, with a separation factor that is at least the
/// cohesion factor and neither negative, the new velocity of boid `i` less that of boid
/// `j` points, along every axis, the way of its place less the place of boid `j`, or is
/// zero; and the dot product of the two differences is not below zero. The new
/// velocities, their difference and that product are of finite numbers.
pub proof fn lemma_near_pair_gets_no_nearer(m: BoidMemory, boids: Seq<Boid>, i: int, j: int)
    requires
        0 <= i < boids.len(),
        0 <= j < boids.len(),
        i != j,
        only_pair(m, boids, i, j, boids.len()),
        only_pair(m, boids, j, i, boids.len()),
        finite3(boids[i].translation) && finite3(boids[j].translation),
        finite3(boids[i].velocity) && finite3(boids[j].velocity),
        boids[i].velocity.equal(boids[j].velocity),
        m.separation_factor.finite() && m.cohesion_factor.finite() && m.alignment_factor.finite(),
        !m.separation_factor.negative() && !m.cohesion_factor.negative(),
        m.cohesion_factor.le_spec(m.separation_factor),
        finite3(boids[i].translation.sub_spec(boids[j].translation)),
        finite3(pair_drive(m, boids[i].translation.sub_spec(boids[j].translation))),
        finite3(boid_forces_spec(m, boids)[i].velocity),
        finite3(boid_forces_spec(m, boids)[j].velocity),
        finite3(boid_forces_spec(m, boids)[i].velocity.sub_spec(boid_forces_spec(m, boids)[j].velocity)),
        boid_forces_spec(m, boids)[i].velocity.sub_spec(boid_forces_spec(m, boids)[j].velocity).dot_spec(
            boids[i].translation.sub_spec(boids[j].translation),
        ).finite(),
    ensures
        ({
            let d = boids[i].translation.sub_spec(boids[j].translation);
            let g = boid_forces_spec(m, boids)[i].velocity.sub_spec(boid_forces_spec(m, boids)[j].velocity);
            &&& points_with(g.x, d.x)
            &&& points_with(g.y, d.y)
            &&& points_with(g.z, d.z)
            &&& whole(g.dot_spec(d)) >= 0
        }),
{
    let d = boids[i].translation.sub_spec(boids[j].translation);
    let v = boids[i].velocity;
    let w = boids[j].velocity;
    let ci = velocity_change(m, boids, i);
    let cj = velocity_change(m, boids, j);
    let drive = pair_drive(m, d);
    let g = boid_forces_spec(m, boids)[i].velocity.sub_spec(boid_forces_spec(m, boids)[j].velocity);
    lemma_near_pair_is_driven_apart(m, boids, i, j);
    lemma_drive_points_off(d.x, m.separation_factor, m.cohesion_factor);
    lemma_drive_points_off(d.y, m.separation_factor, m.cohesion_factor);
    lemma_drive_points_off(d.z, m.separation_factor, m.cohesion_factor);
    lemma_axis_gets_no_nearer(v.x, w.x, ci.x, cj.x, drive.x);
    lemma_axis_gets_no_nearer(v.y, w.y, ci.y, cj.y, drive.y);
    lemma_axis_gets_no_nearer(v.z, w.z, ci.z, cj.z, drive.z);
    // the dot product: three products that are not below zero, and their sums
    let px = g.x.mul_spec(d.x);
    let py = g.y.mul_spec(d.y);
    let pz = g.z.mul_spec(d.z);
    lemma_finite_parts(px.add_spec(py), pz);
    lemma_finite_parts(px, py);
    lemma_product_is_not_below_zero(g.x, d.x);
    lemma_product_is_not_below_zero(g.y, d.y);
    lemma_product_is_not_below_zero(g.z, d.z);
    lemma_sum_error(px, py);
    lemma_sum_error(px.add_spec(py), pz);
}

/// Whether `g` points the way of `d` or is zero: its whole number is not below zero where
/// `d` is not negative, and not above where `d` is.
pub open spec fn points_with(g: F32, d: F32) -> bool {
    (!d.negative() ==> whole(g) >= 0) && (d.negative() ==> whole(g) <= 0)
}

/// The product of a number and one that it points with is not below zero.
proof fn lemma_product_is_not_below_zero(g: F32, d: F32)
    requires
        g.finite(),
        d.finite(),
        points_with(g, d),
        g.mul_spec(d).finite(),
    ensures
        whole(g.mul_spec(d)) >= 0,
{
    lemma_signs(g, d);
    lemma_whole(g);
    lemma_whole(g.mul_spec(d));
    if g.zero() {
        lemma_mul_zero(d, g);
    }
}

/// One axis of two boids that are driven apart: `v` and `w` are their velocities, equal
/// to each other; `ci` and `cj` their changes, which equal the drive and the drive with
/// the sign flipped. The new velocity of the first less that of the second has a whole
/// number of the sign of the drive's, or zero.
proof fn lemma_axis_gets_no_nearer(v: F32, w: F32, ci: F32, cj: F32, drive: F32)
    requires
        v.finite() && w.finite() && drive.finite(),
        v.equal(w),
        ci.equal(drive),
        cj.equal(drive.neg_spec()),
        v.add_spec(ci).finite(),
        w.add_spec(cj).finite(),
        v.add_spec(ci).sub_spec(w.add_spec(cj)).finite(),
    ensures
        whole(drive) >= 0 ==> whole(v.add_spec(ci).sub_spec(w.add_spec(cj))) >= 0,
        whole(drive) <= 0 ==> whole(v.add_spec(ci).sub_spec(w.add_spec(cj))) <= 0,
{
    lemma_whole(drive);
    lemma_equal_wholes(v, w);
    lemma_equal_wholes(ci, drive);
    lemma_equal_wholes(cj, drive.neg_spec());
    let a = v.add_spec(ci);
    let b = w.add_spec(cj);
    if whole(drive) >= 0 {
        lemma_sum_is_monotone(w, cj, v, ci);
    }
    if whole(drive) <= 0 {
        lemma_sum_is_monotone(v, ci, w, cj);
    }
    lemma_whole(b);
    lemma_sum_error(a, b.neg_spec());
}

/// The drive the other way round is the drive with the sign flipped: with `d` for
/// `p - q` and `e` for `q - p`, `e sf - e cf` is finite and equals `d sf - d cf` negated.
proof fn lemma_drive_flips(p: F32, q: F32, sf: F32, cf: F32)
    requires
        p.finite() && q.finite() && sf.finite() && cf.finite(),
        p.sub_spec(q).finite(),
        p.sub_spec(q).mul_spec(sf).sub_spec(p.sub_spec(q).mul_spec(cf)).finite(),
    ensures
        q.sub_spec(p).finite(),
        q.sub_spec(p).mul_spec(sf).sub_spec(q.sub_spec(p).mul_spec(cf)).finite(),
        q.sub_spec(p).mul_spec(sf).sub_spec(q.sub_spec(p).mul_spec(cf)).equal(
            p.sub_spec(q).mul_spec(sf).sub_spec(p.sub_spec(q).mul_spec(cf)).neg_spec(),
        ),
{
    let d = p.sub_spec(q);
    let e = q.sub_spec(p);
    lemma_add_neg(q, p);
    lemma_finite_parts(d.mul_spec(sf), d.mul_spec(cf).neg_spec());
    lemma_order(sf, sf, sf);
    lemma_order(cf, cf, cf);
    lemma_mul_respects_equal(e, d.neg_spec(), sf, sf);
    lemma_mul_respects_equal(e, d.neg_spec(), cf, cf);
    lemma_finite_gives_numbers(d, sf);
    lemma_finite_gives_numbers(d, cf);
    lemma_mul_neg(d, sf);
    lemma_mul_neg(d, cf);
    lemma_neg_respects_equal(e.mul_spec(cf), d.mul_spec(cf).neg_spec());
    lemma_add_neg(d.mul_spec(sf), d.mul_spec(cf).neg_spec());
    lemma_add_respects_equal(
        e.mul_spec(sf),
        d.mul_spec(sf).neg_spec(),
        e.mul_spec(cf).neg_spec(),
        d.mul_spec(cf).neg_spec().neg_spec(),
    );
    lemma_order(
        e.mul_spec(sf).sub_spec(e.mul_spec(cf)),
        d.mul_spec(sf).neg_spec().add_spec(d.mul_spec(cf).neg_spec().neg_spec()),
        d.mul_spec(sf).sub_spec(d.mul_spec(cf)).neg_spec(),
    );
}

/// One component of a velocity near the walls: `turn` more where the position is below
/// `-240 + margin`, and `turn` less where it is above `240 - margin`.
pub open spec fn steer_spec(position: F32, velocity: F32, margin: F32, turn: F32) -> F32 {
    let a = if position.lt_spec((F32 { bits: NEG_BOUNDS_BITS }).add_spec(margin)) {
        velocity.add_spec(turn)
    } else {
        velocity
    };
    if (F32 { bits: BOUNDS_BITS }).sub_spec(margin).lt_spec(position) {
        a.sub_spec(turn)
    } else {
        a
    }
}

/// A boid turned back from the walls, axis by axis.
pub open spec fn avoid_bounds_one(m: BoidMemory, b: Boid) -> Boid {
    Boid {
        translation: b.translation,
        velocity: Vec3 {
            x: steer_spec(b.translation.x, b.velocity.x, m.margin, m.turn_factor),
            y: steer_spec(b.translation.y, b.velocity.y, m.margin, m.turn_factor),
            z: steer_spec(b.translation.z, b.velocity.z, m.margin, m.turn_factor),
        },
    }
}

/// The flock turned back from the walls.
pub open spec fn avoid_bounds_spec(m: BoidMemory, boids: Seq<Boid>) -> Seq<Boid> {
    Seq::new(boids.len(), |i: int| avoid_bounds_one(m, boids[i]))
}

/// A velocity held between the least and the greatest speed: one whose squared length
/// is above 10000 is scaled to length 100, one below 3600 to length 60.
pub open spec fn limit_speed_spec(v: Vec3) -> Vec3 {
    if (F32 { bits: MAX_SPEED_SQ_BITS }).lt_spec(v.length_squared_spec()) {
        v.normalize_or_zero_spec().mul_scalar_spec(F32 { bits: MAX_SPEED_BITS })
    } else if v.length_squared_spec().lt_spec(F32 { bits: MIN_SPEED_SQ_BITS }) {
        v.normalize_or_zero_spec().mul_scalar_spec(F32 { bits: MIN_SPEED_BITS })
    } else {
        v
    }
}

/// A boid after `dt` seconds at its velocity, the speed limited first.
pub open spec fn apply_velocity_one(b: Boid, dt: F32) -> Boid {
    let v = limit_speed_spec(b.velocity);
    Boid { translation: b.translation.add_spec(v.mul_scalar_spec(dt)), velocity: v }
}

/// The flock after `dt` seconds.
pub open spec fn apply_velocity_spec(boids: Seq<Boid>, dt: F32) -> Seq<Boid> {
    Seq::new(boids.len(), |i: int| apply_velocity_one(boids[i], dt))
}

/// Speeds are held between the limits: a velocity whose squared length is kept and is
/// above 10000 comes out with a length within `43 * 2^-24` of 100, counted against 100;
/// one below 3600 with a length as near to 60. Lengths are counted in units of `2^-149`.
pub proof fn lemma_speed_is_limited(v: Vec3)
    requires
        has_length(v),
    ensures
        (F32 { bits: MAX_SPEED_SQ_BITS }).lt_spec(v.length_squared_spec()) ==> close(
            whole(limit_speed_spec(v).length_spec()),
            whole(F32 { bits: MAX_SPEED_BITS }),
            43,
        ),
        !(F32 { bits: MAX_SPEED_SQ_BITS }).lt_spec(v.length_squared_spec()) && v.length_squared_spec().lt_spec(
            F32 { bits: MIN_SPEED_SQ_BITS },
        ) ==> close(whole(limit_speed_spec(v).length_spec()), whole(F32 { bits: MIN_SPEED_BITS }), 43),
        whole(F32 { bits: MAX_SPEED_BITS }) == 100 * pow2(149),
        whole(F32 { bits: MIN_SPEED_BITS }) == 60 * pow2(149),
{
    let most = F32 { bits: MAX_SPEED_BITS };
    let least = F32 { bits: MIN_SPEED_BITS };
    assert(most.significand() == 0xc8_0000 && most.exponent() == -17);
    assert(least.significand() == 0xf0_0000 && least.exponent() == -18);
    lemma2_to64();
    lemma_pow2_pos(149);
    lemma_pow2_adds(17, 132);
    lemma_pow2_adds(18, 131);
    lemma_pow2_adds(20, 149);
    assert(whole(most) == 100 * pow2(149)) by (nonlinear_arith)
        requires
            whole(most) == 0xc8_0000 * pow2(132),
            pow2(149) == 0x2_0000 * pow2(132),
    ;
    assert(whole(least) == 60 * pow2(149)) by (nonlinear_arith)
        requires
            whole(least) == 0xf0_0000 * pow2(131),
            pow2(149) == 0x4_0000 * pow2(131),
    ;
    assert(pow2(169) == 0x10_0000 * pow2(149));
    lemma_length_of_scaled(v, most);
    lemma_length_of_scaled(v, least);
}

/// A speed within the limits is kept: a boid whose velocity has a squared length that is
/// neither above 10000 nor below 3600 keeps its velocity, and moves by it times `dt`.
pub proof fn lemma_speed_within_limits_is_kept(boids: Seq<Boid>, dt: F32, i: int)
    requires
        0 <= i < boids.len(),
        !(F32 { bits: MAX_SPEED_SQ_BITS }).lt_spec(boids[i].velocity.length_squared_spec()),
        !boids[i].velocity.length_squared_spec().lt_spec(F32 { bits: MIN_SPEED_SQ_BITS }),
    ensures
        apply_velocity_spec(boids, dt)[i].velocity == boids[i].velocity,
        apply_velocity_spec(boids, dt)[i].translation == boids[i].translation.add_spec(
            boids[i].velocity.mul_scalar_spec(dt),
        ),
{
}

/// A boid at rest stays: one whose velocity is of zeros keeps a velocity of zeros, and a
/// position equal to the one it had, where `dt` is finite and the position holds no NaN.
pub proof fn lemma_boid_at_rest_stays(boids: Seq<Boid>, dt: F32, i: int)
    requires
        0 <= i < boids.len(),
        boids[i].velocity.x.zero() && boids[i].velocity.y.zero() && boids[i].velocity.z.zero(),
        dt.finite(),
        boids[i].translation.no_nan(),
    ensures
        apply_velocity_spec(boids, dt)[i].velocity == Vec3::zero_spec().mul_scalar_spec(F32 { bits: MIN_SPEED_BITS }),
        apply_velocity_spec(boids, dt)[i].velocity.x.zero(),
        apply_velocity_spec(boids, dt)[i].velocity.y.zero(),
        apply_velocity_spec(boids, dt)[i].velocity.z.zero(),
        apply_velocity_spec(boids, dt)[i].translation.equal(boids[i].translation),
{
    let v = boids[i].velocity;
    let t = boids[i].translation;
    let zero = F32 { bits: 0 };
    let least = F32 { bits: MIN_SPEED_BITS };
    lemma_mul_zero(v.x, v.x);
    lemma_mul_zero(v.y, v.y);
    lemma_mul_zero(v.z, v.z);
    lemma_add_zero(v.x.mul_spec(v.x), v.y.mul_spec(v.y));
    lemma_add_zero(v.x.mul_spec(v.x).add_spec(v.y.mul_spec(v.y)), v.z.mul_spec(v.z));
    let n = v.length_squared_spec();
    assert(n.zero());
    assert(n.sqrt_spec() == n) by {
        reveal(F32::sqrt_spec);
    }
    assert(v.normalize_or_zero_spec() == Vec3::zero_spec());
    lemma_mul_zero(least, zero);
    let after = apply_velocity_spec(boids, dt)[i].velocity;
    assert(after == Vec3::zero_spec().mul_scalar_spec(least));
    lemma_mul_zero(dt, after.x);
    lemma_mul_zero(dt, after.y);
    lemma_mul_zero(dt, after.z);
    lemma_add_zero(t.x, after.x.mul_spec(dt));
    lemma_add_zero(t.y, after.y.mul_spec(dt));
    lemma_add_zero(t.z, after.z.mul_spec(dt));
}

/// Corner `k` of the box from `-size` to `size`: round the face at the least z from the
/// least corner, then round the face at the greatest z.
pub open spec fn cube_spec(size: Vec3, k: int) -> Vec3 {
    Vec3 {
        x: if k == 0 || k == 3 || k == 4 || k == 7 {
            size.x.neg_spec()
        } else {
            size.x
        },
        y: if k == 0 || k == 1 || k == 4 || k == 5 {
            size.y.neg_spec()
        } else {
            size.y
        },
        z: if k < 4 {
            size.z.neg_spec()
        } else {
            size.z
        },
    }
}

/// The eight corners of a box round the origin.
pub fn cube(size: Vec3) -> (r: [Vec3; 8])
    ensures
        forall|k: int| 0 <= k < 8 ==> r[k] == #[trigger] cube_spec(size, k),
{
    let minx = size.x.neg();
    let miny = size.y.neg();
    let minz = size.z.neg();
    let maxx = size.x;
    let maxy = size.y;
    let maxz = size.z;
    let r = [
        Vec3::new(minx, miny, minz),
        Vec3::new(maxx, miny, minz),
        Vec3::new(maxx, maxy, minz),
        Vec3::new(minx, maxy, minz),
        Vec3::new(minx, miny, maxz),
        Vec3::new(maxx, miny, maxz),
        Vec3::new(maxx, maxy, maxz),
        Vec3::new(minx, maxy, maxz),
    ];
    assert(cube_spec(size, 0) == r[0]);
    assert(cube_spec(size, 1) == r[1]);
    assert(cube_spec(size, 2) == r[2]);
    assert(cube_spec(size, 3) == r[3]);
    assert(cube_spec(size, 4) == r[4]);
    assert(cube_spec(size, 5) == r[5]);
    assert(cube_spec(size, 6) == r[6]);
    assert(cube_spec(size, 7) == r[7]);
    r
}

/// The size of the box that a boid is drawn as: `(1, 1, 1)`.
pub open spec fn unit_size() -> Vec3 {
    Vec3 { x: F32 { bits: ONE_BITS }, y: F32 { bits: ONE_BITS }, z: F32 { bits: ONE_BITS } }
}

/// The vertices that a boid is drawn with: the twelve triangles of the box from -1 to 1.
pub fn boid_vertices() -> (r: [Vec3; 36])
    ensures
        forall|k: int|
            0 <= k < 36 ==> r[k] == cube_spec(
                unit_size(),
                #[trigger] box_triangle_indices()[k],
            ),
{
    let one = F32 { bits: ONE_BITS };
    let corners = cube(Vec3::new(one, one, one));
    box_triangles(&corners)
}

/// The bits of 2.
pub const SPREAD_BITS: u32 = 0x4000_0000;

/// The first place and velocity of a boid, from three samples: the samples as a
/// direction of length one, or zero where they have none, times 2 and times 240, less
/// 240, for the place; and the same with 100 for the velocity.
pub open spec fn boid_from_samples_spec(a: F32, b: F32, c: F32) -> Boid {
    let direction = (Vec3 { x: a, y: b, z: c }).normalize_or_zero_spec();
    let twice = direction.mul_scalar_spec(F32 { bits: SPREAD_BITS });
    Boid {
        translation: twice.mul_scalar_spec(F32 { bits: BOUNDS_BITS }).sub_scalar_spec(F32 { bits: BOUNDS_BITS }),
        velocity: twice.mul_scalar_spec(F32 { bits: MAX_SPEED_BITS }).sub_scalar_spec(
            F32 { bits: MAX_SPEED_BITS },
        ),
    }
}

/// The first place and velocity of a boid, from three samples.
pub fn boid_from_samples(a: F32, b: F32, c: F32) -> (r: Boid)
    ensures
        r == boid_from_samples_spec(a, b, c),
{
    let direction = Vec3::new(a, b, c).normalize_or_zero();
    let twice = direction.mul_scalar(F32 { bits: SPREAD_BITS });
    Boid {
        translation: twice.mul_scalar(F32 { bits: BOUNDS_BITS }).sub_scalar(F32 { bits: BOUNDS_BITS }),
        velocity: twice.mul_scalar(F32 { bits: MAX_SPEED_BITS }).sub_scalar(F32 { bits: MAX_SPEED_BITS }),
    }
}

/// The first flock, from samples: boid `i` from the samples `3 i`, `3 i + 1` and
/// `3 i + 2`; samples that do not fill a boid are left over.
pub fn first_flock(samples: &Vec<F32>) -> (r: Vec<Boid>)
    ensures
        r@.len() == samples@.len() / 3,
        forall|i: int|
            0 <= i < r@.len() ==> #[trigger] r@[i] == boid_from_samples_spec(
                samples@[3 * i],
                samples@[3 * i + 1],
                samples@[3 * i + 2],
            ),
{
    let len: usize = samples.len();
    let count: usize = len / 3;
    let mut out: Vec<Boid> = Vec::new();
    let mut i: usize = 0;
    while i < count
        invariant
            i <= count,
            len == samples@.len(),
            count == len / 3,
            out@.len() == i,
            forall|k: int|
                0 <= k < i ==> #[trigger] out@[k] == boid_from_samples_spec(
                    samples@[3 * k],
                    samples@[3 * k + 1],
                    samples@[3 * k + 2],
                ),
        decreases count - i,
    {
        out.push(boid_from_samples(samples[3 * i], samples[3 * i + 1], samples[3 * i + 2]));
        i = i + 1;
    }
    out
}

impl BoidMemory {
    /// A flock of the given boids with the usual numbers: margin 60, turn factor 1,
    /// separation factor 0.015, cohesion factor 0.0005, alignment factor 0.01, view
    /// radius 18 and separation radius 8.
    pub fn new(boids: Vec<Boid>) -> (r: BoidMemory)
        ensures
            r.boids == boids,
            r.margin.bits == 0x4270_0000,
            r.turn_factor.bits == ONE_BITS,
            r.separation_factor.bits == 0x3c75_c28f,
            r.cohesion_factor.bits == 0x3a03_126f,
            r.alignment_factor.bits == 0x3c23_d70a,
            r.view_radius_squared.bits == 0x43a2_0000,
            r.separation_radius_squared.bits == 0x4280_0000,
            forall|k: int|
                0 <= k < 36 ==> r.vertices[k] == cube_spec(
                    unit_size(),
                    #[trigger] box_triangle_indices()[k],
                ),
    {
        BoidMemory {
            boids,
            vertices: boid_vertices(),
            margin: F32 { bits: 0x4270_0000 },
            turn_factor: F32 { bits: ONE_BITS },
            separation_factor: F32 { bits: 0x3c75_c28f },
            cohesion_factor: F32 { bits: 0x3a03_126f },
            alignment_factor: F32 { bits: 0x3c23_d70a },
            view_radius_squared: F32 { bits: 0x43a2_0000 },
            separation_radius_squared: F32 { bits: 0x4280_0000 },
        }
    }

    /// Whether two flocks are steered by the same numbers and drawn with the same
    /// vertices.
    pub open spec fn same_settings(self, other: BoidMemory) -> bool {
        &&& self.vertices == other.vertices
        &&& self.margin == other.margin
        &&& self.turn_factor == other.turn_factor
        &&& self.separation_factor == other.separation_factor
        &&& self.cohesion_factor == other.cohesion_factor
        &&& self.alignment_factor == other.alignment_factor
        &&& self.view_radius_squared == other.view_radius_squared
        &&& self.separation_radius_squared == other.separation_radius_squared
    }
}

/// The forces of the flock on each boid: every velocity changes by what the boid
/// gathers from the flock as it was before the call.
pub fn boid_forces(memory: &mut BoidMemory)
    ensures
        final(memory).boids@ == boid_forces_spec(*old(memory), old(memory).boids@),
        final(memory).same_settings(*old(memory)),
{
    let n: usize = memory.boids.len();
    let ghost m = *memory;
    let ghost boids = memory.boids@;
    let mut next: Vec<Boid> = Vec::new();
    let mut i: usize = 0;
    while i < n
        invariant
            i <= n,
            n == boids.len(),
            *memory == m,
            boids == m.boids@,
            next@.len() == i,
            forall|k: int| 0 <= k < i ==> next@[k] == #[trigger] boid_forces_spec(m, boids)[k],
        decreases n - i,
    {
        let current = memory.boids[i];
        let mut separation = Vec3::zero();
        let mut cohesion = Vec3::zero();
        let mut alignment = Vec3::zero();
        let mut count: usize = 0;
        let mut j: usize = 0;
        while j < n
            invariant
                j <= n,
                i < n,
                n == boids.len(),
                *memory == m,
                boids == m.boids@,
                current == boids[i as int],
                count <= j,
                gathered(m, boids, i as int, j as nat) == (Gathered {
                    separation,
                    cohesion,
                    alignment,
                    count: count as nat,
                }),
            decreases n - j,
        {
            if i != j {
                let other = memory.boids[j];
                let d = current.translation.distance_squared(other.translation);
                if d.le(memory.separation_radius_squared) {
                    separation = separation.add(current.translation.sub(other.translation));
                }
                if d.le(memory.view_radius_squared) {
                    cohesion = cohesion.add(other.translation);
                    alignment = alignment.add(other.velocity);
                    count = count + 1;
                }
            }
            j = j + 1;
        }
        let mut total = separation.mul_scalar(memory.separation_factor);
        if count > 0 {
            let c = F32::from_usize(count);
            total = total.add(
                cohesion.div_scalar(c).sub(current.translation).mul_scalar(memory.cohesion_factor),
            );
            total = total.add(
                alignment.div_scalar(c).sub(current.velocity).mul_scalar(memory.alignment_factor),
            );
        }
        next.push(Boid { translation: current.translation, velocity: current.velocity.add(total) });
        i = i + 1;
    }
    assert(next@ =~= boid_forces_spec(m, boids));
    memory.boids = next;
}

fn steer(position: F32, velocity: F32, margin: F32, turn: F32) -> (r: F32)
    ensures
        r == steer_spec(position, velocity, margin, turn),
{
    let mut v = velocity;
    if position.lt((F32 { bits: NEG_BOUNDS_BITS }).add(margin)) {
        v = v.add(turn);
    }
    if position.gt((F32 { bits: BOUNDS_BITS }).sub(margin)) {
        v = v.sub(turn);
    }
    v
}

/// Turns every boid that is near a wall back towards the middle.
pub fn avoid_bounds(memory: &mut BoidMemory)
    ensures
        final(memory).boids@ == avoid_bounds_spec(*old(memory), old(memory).boids@),
        final(memory).same_settings(*old(memory)),
{
    let n: usize = memory.boids.len();
    let ghost m = *memory;
    let mut next: Vec<Boid> = Vec::new();
    let mut i: usize = 0;
    while i < n
        invariant
            i <= n,
            n == m.boids@.len(),
            *memory == m,
            next@.len() == i,
            forall|k: int| 0 <= k < i ==> next@[k] == avoid_bounds_one(m, #[trigger] m.boids@[k]),
        decreases n - i,
    {
        let b = memory.boids[i];
        next.push(
            Boid {
                translation: b.translation,
                velocity: Vec3 {
                    x: steer(b.translation.x, b.velocity.x, memory.margin, memory.turn_factor),
                    y: steer(b.translation.y, b.velocity.y, memory.margin, memory.turn_factor),
                    z: steer(b.translation.z, b.velocity.z, memory.margin, memory.turn_factor),
                },
            },
        );
        i = i + 1;
    }
    assert(next@ =~= avoid_bounds_spec(m, m.boids@));
    memory.boids = next;
}

/// Holds every speed within its limits and moves every boid for `dt` seconds.
pub fn apply_velocity(memory: &mut BoidMemory, dt: F32)
    ensures
        final(memory).boids@ == apply_velocity_spec(old(memory).boids@, dt),
        final(memory).same_settings(*old(memory)),
{
    let n: usize = memory.boids.len();
    let ghost m = *memory;
    let mut next: Vec<Boid> = Vec::new();
    let mut i: usize = 0;
    while i < n
        invariant
            i <= n,
            n == m.boids@.len(),
            *memory == m,
            next@.len() == i,
            forall|k: int| 0 <= k < i ==> next@[k] == apply_velocity_one(#[trigger] m.boids@[k], dt),
        decreases n - i,
    {
        let b = memory.boids[i];
        let mut v = b.velocity;
        if v.length_squared().gt(F32 { bits: MAX_SPEED_SQ_BITS }) {
            v = v.normalize_or_zero().mul_scalar(F32 { bits: MAX_SPEED_BITS });
        } else if v.length_squared().lt(F32 { bits: MIN_SPEED_SQ_BITS }) {
            v = v.normalize_or_zero().mul_scalar(F32 { bits: MIN_SPEED_BITS });
        }
        next.push(Boid { translation: b.translation.add(v.mul_scalar(dt)), velocity: v });
        i = i + 1;
    }
    assert(next@ =~= apply_velocity_spec(m.boids@, dt));
    memory.boids = next;
}

/// One step of the flock: the forces, then the walls, then the move.
pub fn update(memory: &mut BoidMemory, dt: F32)
    ensures
        final(memory).boids@ == apply_velocity_spec(
            avoid_bounds_spec(*old(memory), boid_forces_spec(*old(memory), old(memory).boids@)),
            dt,
        ),
        final(memory).same_settings(*old(memory)),
{
    let ghost m0 = *memory;
    boid_forces(memory);
    let ghost m1 = *memory;
    avoid_bounds(memory);
    assert(avoid_bounds_spec(m1, m1.boids@) =~= avoid_bounds_spec(m0, m1.boids@));
    apply_velocity(memory, dt);
}

/// One channel of a boid's colour from one coordinate of its position: the coordinate
/// held between -240 and 240, then `(c / 240 + 1) / 2`.
pub open spec fn channel_spec(c: F32) -> F32 {
    let low = F32 { bits: NEG_BOUNDS_BITS };
    let high = F32 { bits: BOUNDS_BITS };
    let held = if c.lt_spec(low) {
        low
    } else if high.lt_spec(c) {
        high
    } else {
        c
    };
    held.div_spec(high).add_spec(F32 { bits: ONE_BITS }).div_spec(F32 { bits: TWO_BITS })
}

/// The colour of a boid, from where it is in the box.
pub open spec fn boid_color_spec(b: Boid) -> LinearRgb {
    LinearRgb {
        r: channel_spec(b.translation.x),
        g: channel_spec(b.translation.y),
        b: channel_spec(b.translation.z),
    }
}

fn channel(c: F32) -> (r: F32)
    ensures
        r == channel_spec(c),
{
    let low = F32 { bits: NEG_BOUNDS_BITS };
    let high = F32 { bits: BOUNDS_BITS };
    let held = if c.lt(low) {
        low
    } else if c.gt(high) {
        high
    } else {
        c
    };
    held.div(high).add(F32 { bits: ONE_BITS }).div(F32 { bits: TWO_BITS })
}

/// What triangle `t` of boid `b` gives the rasterizer: nothing where one of its
/// vertices lies outside the depth range.
pub open spec fn boid_triangle_spec(width: usize, height: usize, camera: Camera, m: BoidMemory, b: int, t: int) -> Option<
    Triangle,
> {
    let p = m.boids[b].translation;
    match triangle_world_to_screen_space_clipped_spec(
        width,
        height,
        camera,
        m.vertices[3 * t].add_spec(p),
        m.vertices[3 * t + 1].add_spec(p),
        m.vertices[3 * t + 2].add_spec(p),
    ) {
        Some(s) => Some(Triangle::from_screen_spec(s, Fill::Flat(boid_color_spec(m.boids[b])))),
        None => None,
    }
}

/// What the first `b` boids, and of the next one the first `t` triangles, give the
/// rasterizer.
pub open spec fn draw_boids_spec(width: usize, height: usize, camera: Camera, m: BoidMemory, b: nat, t: nat) -> Seq<
    Triangle,
>
    decreases b, t,
{
    if t == 0 {
        if b == 0 {
            Seq::empty()
        } else {
            draw_boids_spec(width, height, camera, m, (b - 1) as nat, 12)
        }
    } else {
        let before = draw_boids_spec(width, height, camera, m, b, (t - 1) as nat);
        match boid_triangle_spec(width, height, camera, m, b as int, t - 1) {
            Some(x) => before.push(x),
            None => before,
        }
    }
}

/// The triangles of the flock on the screen: twelve a boid, without those that leave
/// the depth range, each in the colour of its boid.
pub fn draw_boids(memory: &BoidMemory, width: usize, height: usize, camera: &Camera) -> (r: Vec<Triangle>)
    requires
        camera.trig_matches(),
    ensures
        r@ == draw_boids_spec(width, height, *camera, *memory, memory.boids.len() as nat, 0),
{
    let mut out: Vec<Triangle> = Vec::new();
    let n: usize = memory.boids.len();
    let mut b: usize = 0;
    while b < n
        invariant
            b <= n,
            n == memory.boids.len(),
            camera.trig_matches(),
            out@ == draw_boids_spec(width, height, *camera, *memory, b as nat, 0),
        decreases n - b,
    {
        let boid = memory.boids[b];
        let color = LinearRgb {
            r: channel(boid.translation.x),
            g: channel(boid.translation.y),
            b: channel(boid.translation.z),
        };
        let mut t: usize = 0;
        while t < 12
            invariant
                t <= 12,
                b < n,
                camera.trig_matches(),
                n == memory.boids.len(),
                boid == memory.boids[b as int],
                color == boid_color_spec(boid),
                out@ == draw_boids_spec(width, height, *camera, *memory, b as nat, t as nat),
            decreases 12 - t,
        {
            let i: usize = 3 * t;
            match triangle_world_to_screen_space_clipped(
                width,
                height,
                camera,
                memory.vertices[i].add(boid.translation),
                memory.vertices[i + 1].add(boid.translation),
                memory.vertices[i + 2].add(boid.translation),
            ) {
                Some(s) => {
                    out.push(Triangle::from_screen(s, Fill::Flat(color)));
                },
                None => {},
            }
            t = t + 1;
        }
        b = b + 1;
    }
    out
}

/// The two corners that edge `k` of a box joins.
pub open spec fn box_edge(k: int) -> (int, int) {
    if k == 0 {
        (0, 1)
    } else if k == 1 {
        (1, 2)
    } else if k == 2 {
        (2, 3)
    } else if k == 3 {
        (3, 0)
    } else if k == 4 {
        (4, 5)
    } else if k == 5 {
        (5, 6)
    } else if k == 6 {
        (6, 7)
    } else if k == 7 {
        (7, 4)
    } else if k == 8 {
        (0, 4)
    } else if k == 9 {
        (1, 5)
    } else if k == 10 {
        (2, 6)
    } else {
        (3, 7)
    }
}

/// A point of the world as a vertex on the screen, where it lies in the depth range.
pub open spec fn screen_vertex_spec(width: usize, height: usize, camera: Camera, v: Vec3) -> Option<ScreenVertex> {
    let c = vertex_world_to_camera_space_spec(camera, v);
    if in_depth_range(camera, c) {
        Some(ScreenVertex::from_screen_spec(vertex_camera_to_screen_space_spec(width, height, camera, c)))
    } else {
        None
    }
}

/// What edge `k` of the box of the flock gives the rasterizer: a green line, where both
/// its ends lie in the depth range.
pub open spec fn bounds_edge_spec(width: usize, height: usize, camera: Camera, k: int) -> Option<Line> {
    let size = Vec3 { x: F32 { bits: BOUNDS_BITS }, y: F32 { bits: BOUNDS_BITS }, z: F32 { bits: BOUNDS_BITS } };
    let e = box_edge(k);
    match (
        screen_vertex_spec(width, height, camera, cube_spec(size, e.0)),
        screen_vertex_spec(width, height, camera, cube_spec(size, e.1)),
    ) {
        (Some(v1), Some(v2)) => Some(Line { v1, v2, color: Srgb { r: 0, g: 255, b: 0, a: 255 } }),
        _ => None,
    }
}

/// What the first `n` edges of the box of the flock give the rasterizer.
pub open spec fn draw_bounds_spec(width: usize, height: usize, camera: Camera, n: nat) -> Seq<Line>
    decreases n,
{
    if n == 0 {
        Seq::empty()
    } else {
        let before = draw_bounds_spec(width, height, camera, (n - 1) as nat);
        match bounds_edge_spec(width, height, camera, n - 1) {
            Some(x) => before.push(x),
            None => before,
        }
    }
}

fn edge(k: usize) -> (r: (usize, usize))
    requires
        k < 12,
    ensures
        r.0 == box_edge(k as int).0,
        r.1 == box_edge(k as int).1,
        r.0 < 8,
        r.1 < 8,
{
    if k < 3 {
        (k, k + 1)
    } else if k == 3 {
        (3, 0)
    } else if k < 7 {
        (k, k + 1)
    } else if k == 7 {
        (7, 4)
    } else {
        (k - 8, k - 4)
    }
}

/// The twelve edges of the box that holds the flock, as green lines, without those that
/// leave the depth range.
pub fn draw_bounds(width: usize, height: usize, camera: &Camera) -> (r: Vec<Line>)
    requires
        camera.trig_matches(),
    ensures
        r@ == draw_bounds_spec(width, height, *camera, 12),
{
    let bound = F32 { bits: BOUNDS_BITS };
    let size = Vec3::new(bound, bound, bound);
    let corners = cube(size);
    let mut out: Vec<Line> = Vec::new();
    let mut k: usize = 0;
    while k < 12
        invariant
            k <= 12,
            camera.trig_matches(),
            size == (Vec3 {
                x: F32 { bits: BOUNDS_BITS },
                y: F32 { bits: BOUNDS_BITS },
                z: F32 { bits: BOUNDS_BITS },
            }),
            forall|c: int| 0 <= c < 8 ==> corners[c] == #[trigger] cube_spec(size, c),
            out@ == draw_bounds_spec(width, height, *camera, k as nat),
        decreases 12 - k,
    {
        let (i1, i2) = edge(k);
        let v1 = vertex_world_to_screen_space_clipped(width, height, camera, corners[i1]);
        let v2 = vertex_world_to_screen_space_clipped(width, height, camera, corners[i2]);
        match (v1, v2) {
            (Some(a), Some(b)) => {
                out.push(
                    Line {
                        v1: ScreenVertex::from_screen(a),
                        v2: ScreenVertex::from_screen(b),
                        color: Srgb { r: 0, g: 255, b: 0, a: 255 },
                    },
                );
            },
            _ => {},
        }
        k = k + 1;
    }
    out
}

/// The flock and its box for the rasterizer: the triangles of the boids, then the lines
/// of the box.
pub fn render(memory: &BoidMemory, width: usize, height: usize, camera: &Camera) -> (r: (Vec<Triangle>, Vec<Line>))
    requires
        camera.trig_matches(),
    ensures
        r.0@ == draw_boids_spec(width, height, *camera, *memory, memory.boids.len() as nat, 0),
        r.1@ == draw_bounds_spec(width, height, *camera, 12),
{
    (draw_boids(memory, width, height, camera), draw_bounds(width, height, camera))
}

} // verus!
