//! The sine and cosine of an angle from those of its half, as the matrix of a quaternion
//! makes them: `2 s c / (s^2 + c^2)` and `1 - 2 s^2 / (s^2 + c^2)`, to within a few
//! rounding errors.

use crate::error_laws::{
    close, lemma_close_twice, lemma_close_unscaled, lemma_product_error, lemma_product_is_bounded,
    lemma_quotient_error, lemma_scaled_error, lemma_signs, lemma_size_of_product, lemma_sizes_order,
    lemma_sum_error, lemma_sum_is_bounded, lemma_whole, size, whole,
};
use crate::length_errors::lemma_squared_length_parts;
use crate::single::F32;
use crate::single_laws::{lemma_add_zero, lemma_mul_zero};
use crate::turn_errors::near_unit;
use vstd::arithmetic::power2::{lemma2_to64, lemma_pow2_adds, lemma_pow2_pos, pow2};
use vstd::prelude::*;

verus! {

/// A product with a factor that is nearly a given number, in whole numbers: `r` is the
/// product of `a` and `b` as binary32 gives it, `b` lies `eb` at most from `goal`, and `a`
/// is at most `k` in size. Then `r k` lies within `k * eb` and the error of the product of
/// `a * goal`.
proof fn lemma_product_with_near(k: int, h: int, a: int, b: int, goal: int, eb: int, r: int)
    requires
        k > 0,
        h >= 0,
        size(a) <= k,
        size(b - goal) <= eb,
        0x100_0000 * size(r * k - a * b) <= size(a * b) + h,
    ensures
        0x100_0000 * size(r * k - a * goal) <= size(a * b) + h + 0x100_0000 * (k * eb),
{
    let ab = a * b;
    let ag = a * goal;
    lemma_size_of_product(a, b - goal, k, eb);
    assert(ab - ag == a * (b - goal)) by (nonlinear_arith)
        requires
            ab == a * b,
            ag == a * goal,
    ;
    assert(size(r * k - ag) <= size(r * k - ab) + size(ab - ag));
}

/// The sine and cosine of a whole angle from those of its half, in whole numbers. `k`
/// stands for one and `h` for the half of the least place; `l` and `w` are the sine and
/// the cosine of the half, `n` the sum of their squares, `s` the quotient of two by `n`,
/// `ls` the product of `l` and `s`, `wl` and `ll` the products of `w` and of `l` with
/// that, and `c` one less `ll`, as binary32 gives them. Where `n` is within `9 * 2^-24` of
/// one and each step errs as it does, `wl` is within `80 * 2^-24` of `2 l w`, and `c` of
/// `1 - 2 l^2`.
pub proof fn lemma_doubled(k: int, h: int, l: int, w: int, n: int, s: int, ls: int, wl: int, ll: int, c: int)
    requires
        k >= 0x1_0000_0000,
        0 <= h,
        0x100_0000 * h <= k * k,
        size(l) <= k,
        size(w) <= k,
        n > 0,
        s >= 0,
        0x100_0000 * size(n - k) <= 9 * k,
        0x100_0000 * size(s * n - (2 * k) * k) <= 3 * ((2 * k) * k) + 0x100_0000 * n,
        0x100_0000 * size(ls * k - l * s) <= size(l * s) + h,
        0x100_0000 * size(wl * k - w * ls) <= size(w * ls) + h,
        0x100_0000 * size(ll * k - l * ls) <= size(l * ls) + h,
        0x100_0000 * size(c - (k - ll)) <= size(k - ll),
    ensures
        0x100_0000 * size(wl * k - 2 * (l * w)) <= 80 * (k * k),
        0x100_0000 * size(c * k - (k * k - 2 * (l * l))) <= 80 * (k * k),
{
    let kk = k * k;
    assert(kk >= 0x1_0000_0000 * k && kk > 0) by (nonlinear_arith)
        requires
            kk == k * k,
            k >= 0x1_0000_0000,
    ;
    // the scale is near two
    let sn = s * n;
    let sk = s * k;
    let en = n - k;
    assert(2 * n >= k && n <= 2 * k);
    assert((2 * k) * k == 2 * kk) by (nonlinear_arith)
        requires
            kk == k * k,
    ;
    assert(h <= kk);
    assert(0x100_0000 * size(sn - 2 * kk) <= 7 * kk);
    assert(sn <= 3 * kk);
    assert(s <= 6 * k) by (nonlinear_arith)
        requires
            s * n <= 3 * (k * k),
            2 * n >= k,
            s >= 0,
            k > 0,
    ;
    lemma_size_of_product(s, en, 6 * k, size(en));
    assert(sn - sk == s * en) by (nonlinear_arith)
        requires
            sn == s * n,
            sk == s * k,
            en == n - k,
    ;
    assert(0x100_0000 * size(s * en) <= 54 * kk) by (nonlinear_arith)
        requires
            size(s * en) <= (6 * k) * size(en),
            0x100_0000 * size(en) <= 9 * k,
            kk == k * k,
            k > 0,
    ;
    assert(0x100_0000 * size(sk - 2 * kk) <= 61 * kk);
    let es = s - 2 * k;
    lemma_scaled_error(0x100_0000, es, k, 0x100_0000 * size(es));
    assert(es * k == sk - 2 * kk) by (nonlinear_arith)
        requires
            es == s - 2 * k,
            sk == s * k,
            kk == k * k,
    ;
    assert(0x100_0000 * size(es) <= 61 * k) by (nonlinear_arith)
        requires
            0x100_0000 * (size(es) * k) <= 61 * (k * k),
            k > 0,
    ;
    assert(s <= 3 * k);
    // the sine of the half times the scale is near twice the sine
    lemma_size_of_product(l, s, k, 3 * k);
    lemma_product_with_near(k, h, l, s, 2 * k, size(es), ls);
    assert(k * (3 * k) == 3 * kk && l * (2 * k) == (2 * l) * k) by (nonlinear_arith)
        requires
            kk == k * k,
    ;
    let e1 = ls - 2 * l;
    lemma_scaled_error(0x100_0000, e1, k, 0x100_0000 * size(e1));
    assert(e1 * k == ls * k - (2 * l) * k) by (nonlinear_arith)
        requires
            e1 == ls - 2 * l,
    ;
    assert(0x100_0000 * (k * size(es)) <= 61 * kk) by (nonlinear_arith)
        requires
            0x100_0000 * size(es) <= 61 * k,
            kk == k * k,
            k > 0,
    ;
    assert(0x100_0000 * size(e1 * k) <= 65 * kk);
    assert(0x100_0000 * size(e1) <= 65 * k) by (nonlinear_arith)
        requires
            0x100_0000 * (size(e1) * k) <= 65 * (k * k),
            k > 0,
    ;
    assert(size(ls) <= 3 * k);
    // the two products
    lemma_size_of_product(w, ls, k, 3 * k);
    lemma_product_with_near(k, h, w, ls, 2 * l, size(e1), wl);
    lemma_size_of_product(l, ls, k, 3 * k);
    lemma_product_with_near(k, h, l, ls, 2 * l, size(e1), ll);
    assert(w * (2 * l) == 2 * (l * w) && l * (2 * l) == 2 * (l * l)) by (nonlinear_arith);
    assert(0x100_0000 * (k * size(e1)) <= 65 * kk) by (nonlinear_arith)
        requires
            0x100_0000 * size(e1) <= 65 * k,
            kk == k * k,
            k > 0,
    ;
    assert(0x100_0000 * size(wl * k - 2 * (l * w)) <= 69 * kk);
    assert(0x100_0000 * size(ll * k - 2 * (l * l)) <= 69 * kk);
    // one less the square
    lemma_size_of_product(l, l, k, k);
    let llk = ll * k;
    assert(size(llk) <= 3 * kk);
    assert(size(ll) <= 3 * k) by (nonlinear_arith)
        requires
            size(ll * k) <= 3 * (k * k),
            k > 0,
    ;
    let e4 = c - (k - ll);
    lemma_scaled_error(0x100_0000, e4, k, 4 * k);
    assert(e4 * k == c * k - (kk - llk)) by (nonlinear_arith)
        requires
            e4 == c - (k - ll),
            llk == ll * k,
            kk == k * k,
    ;
    assert((4 * k) * k == 4 * kk) by (nonlinear_arith)
        requires
            kk == k * k,
    ;
    assert(size(c * k - (kk - 2 * (l * l))) <= size(e4 * k) + size(llk - 2 * (l * l)));
    assert(0x100_0000 * size(c * k - (kk - 2 * (l * l))) <= 73 * kk);
}

/// The sum of the squares of a sine and a cosine, as binary32 gives it.
pub open spec fn squares(l: F32, w: F32) -> F32 {
    l.mul_spec(l).add_spec(w.mul_spec(w))
}

/// The sine of the whole angle as the matrix of a quaternion makes it from the sine `l`
/// and the cosine `w` of the half: `w (l s)`, with `s` two divided by the squares
/// together.
pub open spec fn doubled_sine(l: F32, w: F32) -> F32 {
    w.mul_spec(l.mul_spec((F32 { bits: 0x4000_0000 }).div_spec(squares(l, w))))
}

/// The cosine of the whole angle as the matrix makes it: `1 - l (l s)`.
pub open spec fn doubled_cosine(l: F32, w: F32) -> F32 {
    (F32 { bits: 0x3f80_0000 }).sub_spec(l.mul_spec(l.mul_spec((F32 { bits: 0x4000_0000 }).div_spec(squares(l, w)))))
}

/// The sine and cosine that a matrix makes of those of the half angle are twice the
/// product of the two, and one less twice the square of the sine, to within
/// `80 * 2^-24`: where the sine and cosine of the half are those of one angle as nearly as
/// binary32 can say, and the scale, the three products and the difference are finite. The
/// squares together are finite and above zero.
pub proof fn lemma_doubled_angle(l: F32, w: F32)
    requires
        near_unit(l, w),
        (F32 { bits: 0x4000_0000 }).div_spec(squares(l, w)).finite(),
        l.mul_spec((F32 { bits: 0x4000_0000 }).div_spec(squares(l, w))).finite(),
        doubled_sine(l, w).finite(),
        l.mul_spec(l.mul_spec((F32 { bits: 0x4000_0000 }).div_spec(squares(l, w)))).finite(),
        doubled_cosine(l, w).finite(),
    ensures
        squares(l, w).finite(),
        !squares(l, w).negative(),
        !squares(l, w).zero(),
        0x100_0000 * size(whole(doubled_sine(l, w)) * pow2(149) - 2 * (whole(l) * whole(w))) <= 80 * (pow2(149) * pow2(
            149,
        )),
        0x100_0000 * size(
            whole(doubled_cosine(l, w)) * pow2(149) - (pow2(149) * pow2(149) - 2 * (whole(l) * whole(l))),
        ) <= 80 * (pow2(149) * pow2(149)),
{
    let one = F32 { bits: 0x3f80_0000 };
    let two = F32 { bits: 0x4000_0000 };
    let zero = F32 { bits: 0 };
    let k = pow2(149) as int;
    let h = pow2(172) as int;
    let n = squares(l, w);
    let s = two.div_spec(n);
    let ls = l.mul_spec(s);
    let wl = w.mul_spec(ls);
    let ll = l.mul_spec(ls);
    let c = one.sub_spec(ll);
    lemma2_to64();
    lemma_pow2_pos(149);
    lemma_pow2_pos(172);
    lemma_pow2_adds(32, 117);
    lemma_pow2_pos(117);
    lemma_pow2_adds(23, 126);
    lemma_pow2_adds(23, 127);
    lemma_pow2_adds(1, 149);
    lemma_pow2_adds(149, 149);
    lemma_pow2_adds(24, 172);
    lemma_pow2_adds(3, 172);
    crate::bits::lemma_pow2_increases(196, 298);
    crate::bits::lemma_pow2_increases(175, 297);
    lemma_pow2_adds(1, 297);
    assert(k >= 0x1_0000_0000) by (nonlinear_arith)
        requires
            k == 0x1_0000_0000 * pow2(117),
            pow2(117) >= 1,
    ;
    assert(one.significand() == 0x80_0000 && one.exponent() == -23);
    assert(two.significand() == 0x80_0000 && two.exponent() == -22);
    lemma_whole(one);
    lemma_whole(two);
    lemma_whole(zero);
    lemma_sizes_order(l, one);
    lemma_sizes_order(w, one);
    lemma_whole(l);
    lemma_whole(w);
    // the squares together are near one
    lemma_product_is_bounded(l, l, 0, 0);
    lemma_product_is_bounded(w, w, 0, 0);
    lemma_sum_is_bounded(l.mul_spec(l), w.mul_spec(w), 0);
    lemma_mul_zero(zero, zero);
    lemma_add_zero(n, zero.mul_spec(zero));
    assert(n.add_spec(zero.mul_spec(zero)).finite());
    lemma_squared_length_parts(l, w, zero);
    lemma_whole(n);
    let sl = size(whole(l));
    let sw = size(whole(w));
    let kk = k * k;
    let exact = sl * sl + sw * sw;
    assert(sl * sl == whole(l) * whole(l) && sw * sw == whole(w) * whole(w)) by (nonlinear_arith)
        requires
            sl == size(whole(l)),
            sw == size(whole(w)),
    ;
    assert(exact >= 0 && kk > 0) by (nonlinear_arith)
        requires
            exact == sl * sl + sw * sw,
            kk == k * k,
            k > 0,
    ;
    assert(0x100_0000 * size(exact - kk) <= 4 * kk);
    assert(8 * h <= exact);
    let nn = whole(n);
    assert(whole(n.add_spec(zero.mul_spec(zero))) == nn) by {
        crate::single_laws::lemma_order(n.add_spec(zero.mul_spec(zero)), n, n);
        lemma_whole(n.add_spec(zero.mul_spec(zero)));
    }
    assert(sl * sl + sw * sw + 0 * 0 == exact) by (nonlinear_arith)
        requires
            exact == sl * sl + sw * sw,
    ;
    assert(nn * k >= 0) by (nonlinear_arith)
        requires
            nn >= 0,
            k > 0,
    ;
    assert(close(nn * k, exact, 4)) by {
        let e1 = size(whole(l.mul_spec(l)) * k - sl * sl);
        let e2 = size(whole(w.mul_spec(w)) * k - sw * sw);
        let e3 = size(nn - (whole(l.mul_spec(l)) + whole(w.mul_spec(w))));
        lemma_scaled_error(0x100_0000, nn - (whole(l.mul_spec(l)) + whole(w.mul_spec(w))), k, whole(l.mul_spec(l))
            + whole(w.mul_spec(w)));
        let ak = whole(l.mul_spec(l)) * k;
        let bk = whole(w.mul_spec(w)) * k;
        assert((nn - (whole(l.mul_spec(l)) + whole(w.mul_spec(w)))) * k == nn * k - ak - bk && (whole(l.mul_spec(l))
            + whole(w.mul_spec(w))) * k == ak + bk) by (nonlinear_arith)
            requires
                ak == whole(l.mul_spec(l)) * k,
                bk == whole(w.mul_spec(w)) * k,
        ;
        assert(0x100_0000 * (0x100_0000 * size(nn * k - exact)) <= 0x100_0000 * (4 * exact));
    }
    assert(close(exact, kk, 4));
    lemma_close_twice(nn * k, exact, kk, 4, 4);
    lemma_close_unscaled(nn, k, 9, k);
    assert(nn > 0);
    // the scale and the products
    lemma_quotient_error(two, n);
    lemma_signs(two, n);
    lemma_whole(s);
    lemma_product_error(l, s);
    lemma_whole(ls);
    lemma_product_error(w, ls);
    lemma_product_error(l, ls);
    lemma_whole(wl);
    lemma_whole(ll);
    lemma_whole(ll.neg_spec());
    lemma_sum_error(one, ll.neg_spec());
    lemma_whole(c);
    assert(size(whole(two)) * k == (2 * k) * k);
    lemma_doubled(k, h, whole(l), whole(w), nn, whole(s), whole(ls), whole(wl), whole(ll), whole(c));
}

/// The squares of a sine and a cosine together are a finite number above zero, where the
/// two are those of one angle as nearly as binary32 can say.
pub proof fn lemma_squares_are_kept(l: F32, w: F32)
    requires
        near_unit(l, w),
    ensures
        squares(l, w).finite(),
        !squares(l, w).negative(),
        !squares(l, w).zero(),
{
    let one = F32 { bits: 0x3f80_0000 };
    let zero = F32 { bits: 0 };
    let k = pow2(149) as int;
    let h = pow2(172) as int;
    let n = squares(l, w);
    lemma2_to64();
    lemma_pow2_pos(149);
    lemma_pow2_pos(172);
    lemma_pow2_adds(23, 126);
    lemma_pow2_adds(149, 149);
    lemma_pow2_adds(3, 172);
    crate::bits::lemma_pow2_increases(175, 297);
    lemma_pow2_adds(1, 297);
    assert(one.significand() == 0x80_0000 && one.exponent() == -23);
    lemma_whole(one);
    lemma_whole(zero);
    lemma_sizes_order(l, one);
    lemma_sizes_order(w, one);
    lemma_whole(l);
    lemma_whole(w);
    lemma_product_is_bounded(l, l, 0, 0);
    lemma_product_is_bounded(w, w, 0, 0);
    lemma_sum_is_bounded(l.mul_spec(l), w.mul_spec(w), 0);
    lemma_mul_zero(zero, zero);
    lemma_add_zero(n, zero.mul_spec(zero));
    lemma_squared_length_parts(l, w, zero);
    lemma_whole(n);
    let sl = size(whole(l));
    let sw = size(whole(w));
    let kk = k * k;
    let exact = sl * sl + sw * sw;
    assert(sl * sl == whole(l) * whole(l) && sw * sw == whole(w) * whole(w)) by (nonlinear_arith)
        requires
            sl == size(whole(l)),
            sw == size(whole(w)),
    ;
    assert(kk > 0) by (nonlinear_arith)
        requires
            kk == k * k,
            k > 0,
    ;
    assert(2 * exact >= kk);
    // were the sum zero, both squares would be lost
    if n.zero() {
        let a = whole(l.mul_spec(l));
        let b = whole(w.mul_spec(w));
        assert(a + b == 0);
        assert(a == 0 && b == 0);
        assert(a * k == 0 && b * k == 0) by (nonlinear_arith)
            requires
                a == 0,
                b == 0,
        ;
        assert(false);
    }
}

} // verus!
