//! What holds of the length of a vector: one that is divided by its own length has
//! length one, and scaled it has the length of the scale, as nearly as binary32 can say.

use crate::error_laws::{close, lemma_product_is_bounded, lemma_sum_is_bounded, lemma_whole, whole};
use crate::length_errors::{lemma_scaled_length, lemma_unit_length};
use crate::math::vec::{Vec2, Vec3};
use crate::single::F32;
use crate::single_laws::{lemma_add_zero, lemma_mul_zero, lemma_zero_div};
use vstd::arithmetic::power2::{lemma_pow2_pos, pow2};
use vstd::prelude::*;

verus! {

/// Whether the squared length of a vector is kept by binary32: it is a finite number,
/// and at least `2^-64`. A vector with components of `2^63` or more may have none, and
/// of one with a length below `2^-32` the squares may be lost.
pub open spec fn has_length(v: Vec3) -> bool {
    v.length_squared_spec().finite() && v.length_squared_spec().magnitude() >= 0x1f80_0000
}

/// A normalised vector has length one: where the squared length of a vector is kept, its
/// length is not zero, the vector divided by it is of finite numbers, and the length of
/// that is within `34 * 2^-24` of one. Lengths are counted in units of `2^-149`, in
/// which one is `2^149`.
pub proof fn lemma_normalised_length(v: Vec3)
    requires
        has_length(v),
    ensures
        !v.length_spec().zero(),
        v.normalize_or_zero_spec() == v.normalize_spec(),
        v.normalize_spec().length_spec().finite(),
        close(whole(v.normalize_spec().length_spec()), pow2(149) as int, 34),
{
    lemma_unit_length(v.x, v.y, v.z);
}

/// A vector scaled to a length has that length: where the squared length of a vector is
/// kept and `c` is a number from 1 to `2^20`, the vector divided by its length and
/// multiplied by `c` is of finite numbers, and its length is within `43 * 2^-24` of `c`,
/// counted against `c`.
pub proof fn lemma_length_of_scaled(v: Vec3, c: F32)
    requires
        has_length(v),
        c.finite(),
        !c.negative(),
        pow2(149) <= whole(c) <= pow2(169),
    ensures
        v.normalize_or_zero_spec() == v.normalize_spec(),
        v.normalize_spec().mul_scalar_spec(c).length_spec().finite(),
        close(whole(v.normalize_spec().mul_scalar_spec(c).length_spec()), whole(c), 43),
{
    lemma_scaled_length(v.x, v.y, v.z, c);
}

/// A normalised vector of the plane has length one: where the squared length of a vector
/// of two components is a finite number of at least `2^-64`, its length is not zero, and
/// the length of the vector divided by it is finite and within `34 * 2^-24` of one.
pub proof fn lemma_normalised_length_in_the_plane(v: Vec2)
    requires
        v.length_squared_spec().finite(),
        v.length_squared_spec().magnitude() >= 0x1f80_0000,
    ensures
        !v.length_spec().zero(),
        v.normalize_or_zero_spec() == v.normalize_spec(),
        v.normalize_spec().length_spec().finite(),
        close(whole(v.normalize_spec().length_spec()), pow2(149) as int, 34),
{
    let zero = F32 { bits: 0 };
    let n = v.length_squared_spec();
    let l = n.sqrt_spec();
    // a third component of zero changes nothing
    lemma_mul_zero(zero, zero);
    lemma_add_zero(n, zero.mul_spec(zero));
    lemma_unit_length(v.x, v.y, zero);
    lemma_zero_div(zero, l);
    let ux = v.x.div_spec(l);
    let uy = v.y.div_spec(l);
    let uz = zero.div_spec(l);
    lemma_mul_zero(uz, uz);
    let m = ux.mul_spec(ux).add_spec(uy.mul_spec(uy));
    let with_third = m.add_spec(uz.mul_spec(uz));
    lemma_product_is_bounded(ux, ux, 1, 1);
    lemma_product_is_bounded(uy, uy, 1, 1);
    lemma_sum_is_bounded(ux.mul_spec(ux), uy.mul_spec(uy), 2);
    lemma_add_zero(m, uz.mul_spec(uz));
    lemma_whole(with_third.sqrt_spec());
    lemma_pow2_pos(149);
    if m.zero() {
        reveal(F32::sqrt_spec);
        assert(with_third.zero());
        assert(with_third.sqrt_spec() == with_third);
        assert(false);
    }
}

} // verus!
