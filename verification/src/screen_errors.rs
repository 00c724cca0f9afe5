//! The way from camera space to the screen for a point near the camera's axis: it lands
//! near the middle of the screen, to within a few rounding errors.

use crate::bits::lemma_pow2_increases;
use crate::error_laws::{
    lemma_from_nat_is_bounded, lemma_product_error, lemma_product_is_bounded, lemma_quotient_error,
    lemma_quotient_is_bounded, lemma_scaled_error, lemma_signs, lemma_size_of_product, lemma_sum_error,
    lemma_sum_is_bounded, lemma_whole, size, whole,
};
use crate::single::F32;
use vstd::arithmetic::power2::{lemma2_to64, lemma_pow2_adds, lemma_pow2_pos, pow2};
use vstd::prelude::*;

verus! {

/// A point near the axis on the clip square, in whole numbers. `k` stands for one and `h`
/// for the half of the least place; `d` is the depth, `cx` a coordinate of the point and
/// `cz` its own depth, both within `512 * 2^-24` of `d` of zero and of `d`; `sc` is
/// the scale of the field of view, at most 16; `a` is the coordinate times the scale and
/// `q` that divided by the depth, as binary32 gives them. Then `q` is at most
/// `16400 * 2^-24`.
pub proof fn lemma_near_axis_on_clip(k: int, h: int, d: int, cx: int, cz: int, sc: int, a: int, q: int)
    requires
        k >= 0x1_0000_0000,
        0 <= h,
        h <= d * k,
        d >= 0x1000_0000_0000_0000,
        0 <= sc <= 16 * k,
        a >= 0,
        q >= 0,
        cz > 0,
        0x100_0000 * size(cx) <= 512 * d,
        0x100_0000 * size(cz - d) <= 512 * d,
        0x100_0000 * size(a * k - size(cx) * sc) <= size(cx) * sc + h,
        0x100_0000 * size(q * cz - a * k) <= 3 * (a * k) + 0x100_0000 * cz,
    ensures
        0x100_0000 * q <= 16400 * k,
        2 * cz >= d,
        a <= cz,
{
    let x = size(cx);
    assert(0x100_0000 * x <= 512 * d);
    assert(2 * cz >= d && cz <= 2 * d);
    let xs = x * sc;
    let ak = a * k;
    let dk = d * k;
    assert(xs >= 0 && ak >= 0 && dk > 0) by (nonlinear_arith)
        requires
            xs == x * sc,
            ak == a * k,
            dk == d * k,
            x >= 0,
            sc >= 0,
            a >= 0,
            k > 0,
            d > 0,
    ;
    // the coordinate times the scale is small against the depth
    assert(0x100_0000 * xs <= 8192 * dk) by (nonlinear_arith)
        requires
            0x100_0000 * x <= 512 * d,
            0 <= sc <= 16 * k,
            xs == x * sc,
            dk == d * k,
            d >= 0,
    ;
    assert(0x100_0000 * ak <= 0x100_0001 * xs + h);
    assert(0x100_0000 * ak <= 8194 * dk);
    // and so is the quotient
    let qz = q * cz;
    let czk = cz * k;
    assert(2 * czk >= dk && qz >= 0) by (nonlinear_arith)
        requires
            2 * cz >= d,
            czk == cz * k,
            dk == d * k,
            qz == q * cz,
            q >= 0,
            cz > 0,
            k > 0,
    ;
    assert(0x100_0000 * qz <= 0x100_0003 * ak + 0x100_0000 * cz);
    assert(0x1_0000_0000 * cz <= czk) by (nonlinear_arith)
        requires
            czk == cz * k,
            cz > 0,
            k >= 0x1_0000_0000,
    ;
    assert(0x100_0000 * (0x100_0000 * qz) <= 0x100_0000 * (16400 * czk));
    assert(0x100_0000 * q <= 16400 * k) by (nonlinear_arith)
        requires
            0x100_0000 * (q * cz) <= 16400 * (cz * k),
            cz > 0,
    ;
    assert(a <= cz) by (nonlinear_arith)
        requires
            0x100_0000 * (a * k) <= 8194 * (d * k),
            2 * cz >= d,
            k > 0,
            d >= 0,
    ;
}

/// From the clip square to the screen, in whole numbers, along x. `p` is the clip
/// coordinate, at most `16400 * 2^-24` in size; `s1` is `p + 1`, `s2` half of that and `s3`
/// that times the width `w`, as binary32 gives them. Then twice `s3` is within
/// `2^15 * 2^-24` of the width.
pub proof fn lemma_clip_to_middle(k: int, h: int, p: int, s1: int, s2: int, s3: int, w: int)
    requires
        k >= 0x1_0000_0000,
        0 <= h <= k * k,
        w >= k,
        s1 >= 0,
        s2 >= 0,
        s3 >= 0,
        0x100_0000 * size(p) <= 16400 * k,
        0x100_0000 * size(s1 - (p + k)) <= size(p + k),
        0x100_0000 * size(s2 * (2 * k) - s1 * k) <= 3 * (s1 * k) + 0x100_0000 * (2 * k),
        0x100_0000 * size(s3 * k - s2 * w) <= s2 * w + h,
    ensures
        0x100_0000 * size(2 * s3 - w) <= 0x8000 * w,
        s1 <= 2 * k,
        4 * s2 <= 3 * k,
{
    assert(size(p) <= k);
    assert(s1 <= 2 * k + 1);
    let s1k = s1 * k;
    let s2k = s2 * k;
    assert(s1k >= 0 && s2k >= 0 && s2 * (2 * k) == 2 * s2k) by (nonlinear_arith)
        requires
            s1k == s1 * k,
            s2k == s2 * k,
            s1 >= 0,
            s2 >= 0,
            k > 0,
    ;
    let half = 2 * s2 - s1;
    lemma_scaled_error(0x100_0000, half, k, 0x100_0000 * size(half));
    assert(half * k == 2 * s2k - s1k) by (nonlinear_arith)
        requires
            half == 2 * s2 - s1,
            s1k == s1 * k,
            s2k == s2 * k,
    ;
    assert(0x100_0000 * size(half) <= 3 * s1 + 2 * 0x100_0000) by (nonlinear_arith)
        requires
            0x100_0000 * (size(half) * k) <= 3 * (s1 * k) + 0x100_0000 * (2 * k),
            k > 0,
    ;
    assert(s2 <= 2 * k && s1 <= 2 * k);
    assert(0x100_0000 * s1 <= 0x100_0000 * k + 16402 * k);
    assert(0x100_0000 * (2 * s2) <= 0x100_0000 * k + 16408 * k + 2 * 0x100_0000);
    assert(4 * s2 <= 3 * k);
    // twice s3 against the width, times one
    let s2w = s2 * w;
    let s3k = s3 * k;
    let kw = k * w;
    let pw = p * w;
    let hw = half * w;
    let gw = (s1 - (p + k)) * w;
    lemma_size_of_product(p, w, size(p), w);
    lemma_size_of_product(half, w, size(half), w);
    lemma_size_of_product(s1 - (p + k), w, size(s1 - (p + k)), w);
    assert(2 * s2w == hw + gw + pw + kw && s2w >= 0 && kw >= w) by (nonlinear_arith)
        requires
            s2w == s2 * w,
            hw == (2 * s2 - s1) * w,
            gw == (s1 - (p + k)) * w,
            pw == p * w,
            kw == k * w,
            s2 >= 0,
            w > 0,
            k >= 1,
    ;
    let rest = 2 * s3k - kw;
    assert(size(rest) <= 2 * size(s3k - s2w) + size(hw) + size(gw) + size(pw));
    assert(0x100_0000 * size(pw) <= 16400 * kw) by (nonlinear_arith)
        requires
            size(pw) == size(p) * w,
            0x100_0000 * size(p) <= 16400 * k,
            kw == k * w,
            w > 0,
    ;
    assert(0x100_0000 * size(hw) <= 7 * kw) by (nonlinear_arith)
        requires
            size(hw) == size(half) * w,
            0x100_0000 * size(half) <= 3 * s1 + 2 * 0x100_0000,
            s1 <= 2 * k,
            k >= 0x1_0000_0000,
            kw == k * w,
            w > 0,
    ;
    assert(0x100_0000 * size(gw) <= 2 * kw) by (nonlinear_arith)
        requires
            size(gw) == size(s1 - (p + k)) * w,
            0x100_0000 * size(s1 - (p + k)) <= size(p + k),
            size(p + k) <= 2 * k,
            kw == k * w,
            w > 0,
    ;
    assert(s2w <= 2 * kw) by (nonlinear_arith)
        requires
            s2w == s2 * w,
            kw == k * w,
            0 <= s2 <= 2 * k,
            w > 0,
    ;
    assert(h <= kw) by (nonlinear_arith)
        requires
            h <= k * k,
            kw == k * w,
            w >= k,
            k > 0,
    ;
    assert(0x100_0000 * size(rest) <= 16420 * kw);
    let twice = 2 * s3 - w;
    assert(twice * k == rest) by (nonlinear_arith)
        requires
            twice == 2 * s3 - w,
            rest == 2 * (s3 * k) - k * w,
    ;
    lemma_scaled_error(0x100_0000, twice, k, 0x100_0000 * size(twice));
    assert(0x100_0000 * size(twice) <= 0x8000 * w) by (nonlinear_arith)
        requires
            0x100_0000 * (size(twice) * k) <= 16420 * (k * w),
            k > 0,
            w > 0,
    ;
}

/// A coordinate times the scale is small against the depth, in whole numbers: with the
/// names of `lemma_near_axis_on_clip`, `a` is no larger than the point's own depth, which
/// is at least half of `d`.
pub proof fn lemma_scaled_is_small(k: int, h: int, d: int, cx: int, cz: int, sc: int, a: int)
    requires
        k >= 0x1_0000_0000,
        0 <= h,
        h <= d * k,
        d >= 0x1000_0000_0000_0000,
        0 <= sc <= 16 * k,
        a >= 0,
        0x100_0000 * size(cx) <= 512 * d,
        0x100_0000 * size(cz - d) <= 512 * d,
        0x100_0000 * size(a * k - size(cx) * sc) <= size(cx) * sc + h,
    ensures
        cz > 0,
        2 * cz >= d,
        a <= cz,
{
    let x = size(cx);
    assert(0x100_0000 * x <= 512 * d);
    assert(2 * cz >= d && cz > 0);
    let xs = x * sc;
    let ak = a * k;
    let dk = d * k;
    assert(xs >= 0 && ak >= 0 && dk > 0) by (nonlinear_arith)
        requires
            xs == x * sc,
            ak == a * k,
            dk == d * k,
            x >= 0,
            sc >= 0,
            a >= 0,
            k > 0,
            d > 0,
    ;
    assert(0x100_0000 * xs <= 8192 * dk) by (nonlinear_arith)
        requires
            0x100_0000 * x <= 512 * d,
            0 <= sc <= 16 * k,
            xs == x * sc,
            dk == d * k,
            d >= 0,
    ;
    assert(0x100_0000 * ak <= 8194 * dk);
    assert(a <= cz) by (nonlinear_arith)
        requires
            0x100_0000 * (a * k) <= 8194 * (d * k),
            2 * cz >= d,
            k > 0,
            d >= 0,
    ;
}

/// From the clip square to the screen, in whole numbers, along y, which is counted from
/// the top: with the names of `lemma_clip_to_middle`, `s4` is one less `s2` and `s5` that
/// times the height `w`, as binary32 gives them. Then twice `s5` is within
/// `2^15 * 2^-24` of the height.
pub proof fn lemma_clip_to_middle_flipped(k: int, h: int, p: int, s1: int, s2: int, s4: int, s5: int, w: int)
    requires
        k >= 0x1_0000_0000,
        0 <= h <= k * k,
        w >= k,
        s1 >= 0,
        s2 >= 0,
        s4 >= 0,
        s5 >= 0,
        0x100_0000 * size(p) <= 16400 * k,
        0x100_0000 * size(s1 - (p + k)) <= size(p + k),
        0x100_0000 * size(s2 * (2 * k) - s1 * k) <= 3 * (s1 * k) + 0x100_0000 * (2 * k),
        0x100_0000 * size(s4 - (k - s2)) <= size(k - s2),
        0x100_0000 * size(s5 * k - s4 * w) <= s4 * w + h,
    ensures
        0x100_0000 * size(2 * s5 - w) <= 0x8000 * w,
{
    assert(size(p) <= k);
    assert(s1 <= 2 * k + 1);
    let s1k = s1 * k;
    let s2k = s2 * k;
    assert(s1k >= 0 && s2k >= 0 && s2 * (2 * k) == 2 * s2k) by (nonlinear_arith)
        requires
            s1k == s1 * k,
            s2k == s2 * k,
            s1 >= 0,
            s2 >= 0,
            k > 0,
    ;
    let half = 2 * s2 - s1;
    lemma_scaled_error(0x100_0000, half, k, 0x100_0000 * size(half));
    assert(half * k == 2 * s2k - s1k) by (nonlinear_arith)
        requires
            half == 2 * s2 - s1,
            s1k == s1 * k,
            s2k == s2 * k,
    ;
    assert(0x100_0000 * size(half) <= 3 * s1 + 2 * 0x100_0000) by (nonlinear_arith)
        requires
            0x100_0000 * (size(half) * k) <= 3 * (s1 * k) + 0x100_0000 * (2 * k),
            k > 0,
    ;
    assert(s2 <= 2 * k && s1 <= 2 * k && s4 <= 2 * k);
    // twice s4 against one
    let turn = 2 * s4 - k;
    assert(0x100_0000 * size(turn) <= 16412 * k);
    let s4w = s4 * w;
    let s5k = s5 * k;
    let kw = k * w;
    let tw = turn * w;
    lemma_size_of_product(turn, w, size(turn), w);
    assert(2 * s4w == tw + kw && s4w >= 0 && s4w <= 2 * kw) by (nonlinear_arith)
        requires
            s4w == s4 * w,
            tw == (2 * s4 - k) * w,
            kw == k * w,
            0 <= s4 <= 2 * k,
            w > 0,
    ;
    assert(0x100_0000 * size(tw) <= 16412 * kw) by (nonlinear_arith)
        requires
            size(tw) == size(turn) * w,
            0x100_0000 * size(turn) <= 16412 * k,
            kw == k * w,
            w > 0,
    ;
    assert(h <= kw) by (nonlinear_arith)
        requires
            h <= k * k,
            kw == k * w,
            w >= k,
            k > 0,
    ;
    let rest = 2 * s5k - kw;
    assert(size(rest) <= 2 * size(s5k - s4w) + size(tw));
    assert(0x100_0000 * size(rest) <= 16420 * kw);
    let twice = 2 * s5 - w;
    assert(twice * k == rest) by (nonlinear_arith)
        requires
            twice == 2 * s5 - w,
            rest == 2 * (s5 * k) - k * w,
    ;
    lemma_scaled_error(0x100_0000, twice, k, 0x100_0000 * size(twice));
    assert(0x100_0000 * size(twice) <= 0x8000 * w) by (nonlinear_arith)
        requires
            0x100_0000 * (size(twice) * k) <= 16420 * (k * w),
            k > 0,
            w > 0,
    ;
}

/// Whether a number is within `33 * 2^-24` of the size of `d`, and 7 units of `2^-149`,
/// of `goal`.
pub open spec fn on_axis_within(x: F32, goal: int, d: F32) -> bool {
    0x100_0000 * size(whole(x) - goal) <= 33 * size(whole(d)) + 7 * 0x100_0000
}

/// Whether a number is within `512 * 2^-24` of the size of `d` of `goal`.
pub open spec fn near_axis(x: F32, goal: int, d: F32) -> bool {
    0x100_0000 * size(whole(x) - goal) <= 512 * size(whole(d))
}

/// Whether a number is small on the clip square: its size is at most `16400 * 2^-24`.
pub open spec fn small_on_clip(p: F32) -> bool {
    p.finite() && 0x100_0000 * size(whole(p)) <= 16400 * pow2(149)
}

/// Whether a screen coordinate is near the middle of a side of `n` pixels: twice the
/// coordinate is within `2^15 * 2^-24` of the number that binary32 holds for `n`, so that
/// the coordinate is within `2^-10` of the side of the middle.
pub open spec fn near_middle(x: F32, n: nat) -> bool {
    x.finite() && 0x100_0000 * size(2 * whole(x) - whole(F32::from_nat_spec(n))) <= 0x8000 * whole(
        F32::from_nat_spec(n),
    )
}

/// A coordinate of a point near the axis is small on the clip square: where `cx` is
/// within `512 * 2^-24` of the depth `d` of zero, the point's own depth `cz` as near to `d`,
/// `d` lies from `2^-89` to `2^60` and the scale of the field of view from 0 to 16, the
/// coordinate times the scale, divided by `cz`, is at most `16400 * 2^-24` in size.
pub proof fn lemma_near_axis_is_small_on_clip(cx: F32, cz: F32, d: F32, scale: F32)
    requires
        cx.finite(),
        cz.finite(),
        d.finite(),
        scale.finite(),
        !scale.negative(),
        whole(scale) <= 16 * pow2(149),
        pow2(60) <= whole(d) <= pow2(209),
        near_axis(cx, 0, d),
        near_axis(cz, whole(d), d),
    ensures
        !cz.zero() && !cz.negative(),
        small_on_clip(cx.mul_spec(scale).div_spec(cz)),
{
    let k = pow2(149) as int;
    let h = pow2(172) as int;
    let a = cx.mul_spec(scale);
    let q = a.div_spec(cz);
    lemma2_to64();
    lemma_pow2_pos(149);
    lemma_pow2_pos(172);
    lemma_pow2_adds(32, 117);
    lemma_pow2_pos(117);
    lemma_pow2_adds(60, 149);
    lemma_pow2_adds(4, 149);
    lemma_pow2_adds(32, 28);
    lemma_pow2_increases(172, 209);
    assert(k >= 0x1_0000_0000) by (nonlinear_arith)
        requires
            k == 0x1_0000_0000 * pow2(117),
            pow2(117) >= 1,
    ;
    lemma_whole(cx);
    lemma_whole(cz);
    lemma_whole(d);
    lemma_whole(scale);
    let dd = whole(d);
    assert(h <= dd * k) by (nonlinear_arith)
        requires
            dd >= pow2(60),
            pow2(60) * k == pow2(209),
            h <= pow2(209),
            k > 0,
    ;
    assert(dd >= 0x1000_0000_0000_0000);
    // the coordinate times the scale
    assert(size(whole(cx)) <= dd);
    lemma_product_is_bounded(cx, scale, 60, 4);
    lemma_product_error(cx, scale);
    lemma_signs(cx, scale);
    lemma_whole(a);
    let big = size(whole(a));
    assert(size(big * k - size(whole(cx)) * whole(scale)) == size(whole(a) * k - whole(cx) * whole(scale)) && size(
        whole(cx) * whole(scale),
    ) == size(whole(cx)) * whole(scale)) by (nonlinear_arith)
        requires
            big == size(whole(a)),
            whole(scale) >= 0,
            k > 0,
            (whole(cx) <= 0 && whole(a) <= 0) || (whole(cx) >= 0 && whole(a) >= 0),
    ;
    lemma_scaled_is_small(k, h, dd, whole(cx), whole(cz), whole(scale), big);
    // divided by the depth
    lemma_quotient_is_bounded(a, cz);
    lemma_quotient_error(a, cz);
    lemma_whole(q);
    lemma_near_axis_on_clip(k, h, dd, whole(cx), whole(cz), whole(scale), big, size(whole(q)));
}

/// From the clip square to the screen: a clip coordinate `p` that is small, plus one,
/// halved and multiplied by the pixels of a side, is near the middle of the side; and so
/// is one less that half, multiplied by the pixels, as the screen's y is made. The side
/// has from 1 to `2^64 - 1` pixels.
pub proof fn lemma_small_on_clip_is_near_middle(p: F32, n: nat)
    requires
        small_on_clip(p),
        0 < n < 0x1_0000_0000_0000_0000,
    ensures
        near_middle(
            p.add_spec(F32 { bits: 0x3f80_0000 }).div_spec(F32 { bits: 0x4000_0000 }).mul_spec(F32::from_nat_spec(n)),
            n,
        ),
        near_middle(
            (F32 { bits: 0x3f80_0000 }).sub_spec(
                p.add_spec(F32 { bits: 0x3f80_0000 }).div_spec(F32 { bits: 0x4000_0000 }),
            ).mul_spec(F32::from_nat_spec(n)),
            n,
        ),
{
    let k = pow2(149) as int;
    let h = pow2(172) as int;
    let one = F32 { bits: 0x3f80_0000 };
    let two = F32 { bits: 0x4000_0000 };
    let w = F32::from_nat_spec(n);
    let s1 = p.add_spec(one);
    let s2 = s1.div_spec(two);
    let s3 = s2.mul_spec(w);
    let s4 = one.sub_spec(s2);
    let s5 = s4.mul_spec(w);
    lemma2_to64();
    lemma_pow2_pos(149);
    lemma_pow2_pos(172);
    lemma_pow2_adds(32, 117);
    lemma_pow2_pos(117);
    lemma_pow2_adds(23, 126);
    lemma_pow2_adds(23, 127);
    lemma_pow2_adds(1, 149);
    lemma_pow2_adds(1, 150);
    lemma_pow2_adds(149, 149);
    lemma_pow2_increases(172, 298);
    assert(k >= 0x1_0000_0000) by (nonlinear_arith)
        requires
            k == 0x1_0000_0000 * pow2(117),
            pow2(117) >= 1,
    ;
    assert(one.significand() == 0x80_0000 && one.exponent() == -23);
    assert(two.significand() == 0x80_0000 && two.exponent() == -22);
    lemma_whole(one);
    lemma_whole(two);
    lemma_whole(p);
    lemma_from_nat_is_bounded(n);
    lemma_whole(w);
    // plus one
    lemma_sum_is_bounded(p, one, 0);
    lemma_sum_error(p, one);
    lemma_whole(s1);
    assert(whole(s1) > 0);
    // halved
    lemma_quotient_is_bounded(s1, two);
    lemma_quotient_error(s1, two);
    lemma_signs(s1, two);
    lemma_whole(s2);
    assert(whole(s2) >= 0);
    // times the pixels
    lemma_product_is_bounded(s2, w, 1, 64);
    lemma_product_error(s2, w);
    lemma_signs(s2, w);
    lemma_whole(s3);
    assert(whole(s2) * whole(w) >= 0 && whole(s3) >= 0) by (nonlinear_arith)
        requires
            whole(s2) >= 0,
            whole(w) >= 0,
            whole(s3) >= 0,
    ;
    lemma_clip_to_middle(k, h, whole(p), whole(s1), whole(s2), whole(s3), whole(w));
    // one less the half, times the pixels
    lemma_whole(s2.neg_spec());
    lemma_sum_is_bounded(one, s2.neg_spec(), 1);
    lemma_sum_error(one, s2.neg_spec());
    lemma_whole(s4);
    assert(whole(s4) >= 0);
    lemma_product_is_bounded(s4, w, 2, 64);
    lemma_product_error(s4, w);
    lemma_signs(s4, w);
    lemma_whole(s5);
    assert(whole(s4) * whole(w) >= 0) by (nonlinear_arith)
        requires
            whole(s4) >= 0,
            whole(w) >= 0,
    ;
    lemma_clip_to_middle_flipped(k, h, whole(p), whole(s1), whole(s2), whole(s4), whole(s5), whole(w));
}

} // verus!
