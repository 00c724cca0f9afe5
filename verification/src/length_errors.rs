//! The length of three numbers divided by their own length, and of these scaled: it is
//! one, or the scale, to within a few rounding errors.

use crate::bits::lemma_pow2_increases;
use crate::error_laws::{
    close, lemma_close_roots, lemma_close_scaled, lemma_close_turned, lemma_close_twice, lemma_close_unscaled,
    lemma_finite_parts, lemma_product_error, lemma_product_is_bounded, lemma_quotient_error,
    lemma_quotient_is_bounded, lemma_root_error, lemma_scaled_error, lemma_sizes_order, lemma_sum_error,
    lemma_sum_is_bounded, lemma_whole, size, whole,
};
use crate::rounding_laws::lemma_round_bound;
use crate::single::F32;
use vstd::arithmetic::power2::{lemma2_to64, lemma_pow2_adds, lemma_pow2_pos, pow2};
use vstd::prelude::*;

verus! {

/// The squared length in whole numbers: `xx`, `yy` and `zz` are the exact squares of the
/// three components, `ax`, `ay` and `az` the squares as binary32 gives them, `first` the
/// sum of the first two and `n` the sum of all three; `k` stands for one, and `h` for the
/// half of the least place. Each square errs by at most `2^-24` of itself and `h`, and
/// each sum by at most `2^-24` of itself. Where the exact squares together are at least
/// `8 h`, what binary32 gives is within `4 * 2^-24` of them.
proof fn lemma_squares_together(
    k: int,
    h: int,
    xx: int,
    yy: int,
    zz: int,
    ax: int,
    ay: int,
    az: int,
    first: int,
    n: int,
)
    requires
        k > 0,
        h >= 0,
        xx >= 0 && yy >= 0 && zz >= 0,
        ax >= 0 && ay >= 0 && az >= 0 && first >= 0 && n >= 0,
        8 * h <= xx + yy + zz,
        0x100_0000 * size(ax * k - xx) <= xx + h,
        0x100_0000 * size(ay * k - yy) <= yy + h,
        0x100_0000 * size(az * k - zz) <= zz + h,
        0x100_0000 * size(first - (ax + ay)) <= ax + ay,
        0x100_0000 * size(n - (first + az)) <= first + az,
    ensures
        close(n * k, xx + yy + zz, 4),
{
    let t = 0x100_0000int;
    let s = xx + yy + zz;
    let axk = ax * k;
    let ayk = ay * k;
    let azk = az * k;
    let fk = first * k;
    let nk = n * k;
    let d1 = first - (ax + ay);
    let d2 = n - (first + az);
    lemma_scaled_error(t, d1, k, ax + ay);
    lemma_scaled_error(t, d2, k, first + az);
    let d1k = d1 * k;
    let d2k = d2 * k;
    assert(d1k == fk - axk - ayk && d2k == nk - fk - azk && (ax + ay) * k == axk + ayk && (first + az) * k == fk
        + azk) by (nonlinear_arith)
        requires
            d1 == first - (ax + ay),
            d2 == n - (first + az),
            d1k == d1 * k,
            d2k == d2 * k,
            axk == ax * k,
            ayk == ay * k,
            azk == az * k,
            fk == first * k,
            nk == n * k,
    ;
    assert(nk >= 0) by (nonlinear_arith)
        requires
            nk == n * k,
            n >= 0,
            k > 0,
    ;
    // all that follows is linear in the products
    let e1 = size(axk - xx);
    let e2 = size(ayk - yy);
    let e3 = size(azk - zz);
    let w1 = axk + ayk;
    assert(t * w1 <= (t + 1) * s + 2 * h);
    assert(w1 <= 2 * s);
    assert(t * size(d1k) <= w1);
    let w2 = fk + azk;
    assert(t * w2 <= (t + 1) * s + 3 * h + w1);
    assert(t * size(d2k) <= w2);
    assert(size(nk - s) <= size(d2k) + size(d1k) + e1 + e2 + e3);
    assert(t * (t * size(nk - s)) <= t * (4 * s));
}

/// One component divided by the length, squared, in whole numbers: `g` stands for the
/// quotient times the length, `f` for the component times one, and `l` for the length.
/// Where the quotient errs by at most `3 * 2^-24` of itself and the least place, `2^48`
/// times the difference of the squares is at most
/// `(6 * 2^24 + 9) f^2 + (2 * 2^48 + 6 * 2^24) f l + 2^48 l^2`, the numbers written out.
proof fn lemma_square_of_quotient(g: int, f: int, l: int)
    requires
        g >= 0,
        f >= 0,
        l >= 0,
        0x100_0000 * size(g - f) <= 3 * f + 0x100_0000 * l,
    ensures
        0x1_0000_0000_0000 * size(g * g - f * f) <= 100_663_305 * (f * f) + 562_950_054_084_608 * (f * l)
            + 0x1_0000_0000_0000 * (l * l),
{
    let e = size(g - f);
    let te = 0x100_0000 * e;
    let b = 3 * f + 0x100_0000 * l;
    let ff = f * f;
    let fl = f * l;
    let ll = l * l;
    let fe = f * e;
    let ee = e * e;
    let fb = f * b;
    let bb = b * b;
    assert(size(g * g - f * f) <= 2 * fe + ee) by (nonlinear_arith)
        requires
            e == size(g - f),
            fe == f * e,
            ee == e * e,
            g >= 0,
            f >= 0,
    ;
    assert(0x100_0000 * fe <= fb) by (nonlinear_arith)
        requires
            0x100_0000 * e <= b,
            fe == f * e,
            fb == f * b,
            f >= 0,
    ;
    assert(te * te <= bb) by (nonlinear_arith)
        requires
            0 <= te <= b,
            bb == b * b,
    ;
    assert(te * te == 0x1_0000_0000_0000 * ee) by (nonlinear_arith)
        requires
            te == 0x100_0000 * e,
            ee == e * e,
    ;
    assert(fb == 3 * ff + 0x100_0000 * fl) by (nonlinear_arith)
        requires
            b == 3 * f + 0x100_0000 * l,
            fb == f * b,
            ff == f * f,
            fl == f * l,
    ;
    assert(bb == 9 * ff + 6 * (0x100_0000 * fl) + 0x1_0000_0000_0000 * ll) by (nonlinear_arith)
        requires
            b == 3 * f + 0x100_0000 * l,
            bb == b * b,
            ff == f * f,
            fl == f * l,
            ll == l * l,
    ;
    let sz = size(g * g - f * f);
    assert(0x1_0000_0000_0000 * ee <= bb);
    assert(0x1_0000_0000_0000 * fe <= 0x100_0000 * fb);
    assert(0x1_0000_0000_0000 * sz <= 2 * (0x1_0000_0000_0000 * fe) + 0x1_0000_0000_0000 * ee);
    assert(0x100_0000 * fb == 3 * (0x100_0000 * ff) + 0x1_0000_0000_0000 * fl);
    assert(0x1_0000_0000_0000 * sz <= 6 * (0x100_0000 * ff) + 2 * (0x1_0000_0000_0000 * fl) + bb);
    assert(0x1_0000_0000_0000 * sz <= 100_663_305 * ff + 562_950_054_084_608 * fl + 0x1_0000_0000_0000 * ll);
}

/// The length of a normalised vector in whole numbers. `k` stands for one and `h` for the
/// half of the least place; `x`, `y`, `z` are the sizes of the components, `l` the length
/// that binary32 gives, `ux`, `uy`, `uz` the sizes of the components divided by it, `n`
/// their squared length and `r` the root of that, as binary32 gives them. Where `l^2` is
/// within `11 * 2^-24` of the exact squares together, each quotient errs as a quotient
/// does, `n` is within `4 * 2^-24` of the exact squares of the quotients together unless
/// these are lost, and `r^2` within `6 * 2^-24` of `n` unless that is zero, the length `r`
/// is within `34 * 2^-24` of one.
proof fn lemma_normalised(
    k: int,
    h: int,
    x: int,
    y: int,
    z: int,
    l: int,
    ux: int,
    uy: int,
    uz: int,
    n: int,
    r: int,
)
    requires
        k >= 0x1_0000_0000,
        0 <= h,
        16 * h <= k * k,
        x >= 0 && y >= 0 && z >= 0 && l > 0 && ux >= 0 && uy >= 0 && uz >= 0 && n >= 0 && r >= 0,
        close(l * l, x * x + y * y + z * z, 11),
        0x100_0000 * size(ux * l - x * k) <= 3 * (x * k) + 0x100_0000 * l,
        0x100_0000 * size(uy * l - y * k) <= 3 * (y * k) + 0x100_0000 * l,
        0x100_0000 * size(uz * l - z * k) <= 3 * (z * k) + 0x100_0000 * l,
        8 * h <= ux * ux + uy * uy + uz * uz ==> close(n * k, ux * ux + uy * uy + uz * uz, 4),
        n > 0 ==> close(r * r, n * k, 6),
    ensures
        close(ux * ux + uy * uy + uz * uz, k * k, 22),
        close(r, k, 34),
{
    let t = 0x100_0000int;
    let s = x * x + y * y + z * z;
    let ll = l * l;
    let kk = k * k;
    let su = ux * ux + uy * uy + uz * uz;
    let gx = ux * l;
    let gy = uy * l;
    let gz = uz * l;
    let fx = x * k;
    let fy = y * k;
    let fz = z * k;
    assert(gx >= 0 && gy >= 0 && gz >= 0 && fx >= 0 && fy >= 0 && fz >= 0 && s >= 0 && kk > 0 && ll > 0 && su
        >= 0) by (nonlinear_arith)
        requires
            gx == ux * l,
            gy == uy * l,
            gz == uz * l,
            fx == x * k,
            fy == y * k,
            fz == z * k,
            s == x * x + y * y + z * z,
            kk == k * k,
            ll == l * l,
            su == ux * ux + uy * uy + uz * uz,
            x >= 0 && y >= 0 && z >= 0 && l > 0 && ux >= 0 && uy >= 0 && uz >= 0 && k > 0,
    ;
    lemma_square_of_quotient(gx, fx, l);
    lemma_square_of_quotient(gy, fy, l);
    lemma_square_of_quotient(gz, fz, l);
    // the squares together
    let kks = kk * s;
    assert(fx * fx == kk * (x * x)) by (nonlinear_arith)
        requires
            fx == x * k,
            kk == k * k,
    ;
    assert(fy * fy == kk * (y * y)) by (nonlinear_arith)
        requires
            fy == y * k,
            kk == k * k,
    ;
    assert(fz * fz == kk * (z * z)) by (nonlinear_arith)
        requires
            fz == z * k,
            kk == k * k,
    ;
    assert(kks == kk * (x * x) + kk * (y * y) + kk * (z * z)) by (nonlinear_arith)
        requires
            kks == kk * s,
            s == x * x + y * y + z * z,
    ;
    let sul = su * ll;
    assert(gx * gx == (ux * ux) * ll) by (nonlinear_arith)
        requires
            gx == ux * l,
            ll == l * l,
    ;
    assert(gy * gy == (uy * uy) * ll) by (nonlinear_arith)
        requires
            gy == uy * l,
            ll == l * l,
    ;
    assert(gz * gz == (uz * uz) * ll) by (nonlinear_arith)
        requires
            gz == uz * l,
            ll == l * l,
    ;
    assert(sul == (ux * ux) * ll + (uy * uy) * ll + (uz * uz) * ll) by (nonlinear_arith)
        requires
            sul == su * ll,
            su == ux * ux + uy * uy + uz * uz,
    ;
    // the length against the components: 2 x l <= x x + l l, and l l <= 2 s
    assert(2 * (x * l) <= x * x + ll && 2 * (y * l) <= y * y + ll && 2 * (z * l) <= z * z + ll) by (nonlinear_arith)
        requires
            ll == l * l,
    ;
    assert(ll <= 2 * s);
    let mixed = fx * l + fy * l + fz * l;
    assert(fx * l == k * (x * l) && fy * l == k * (y * l) && fz * l == k * (z * l)) by (nonlinear_arith)
        requires
            fx == x * k,
            fy == y * k,
            fz == z * k,
    ;
    assert(mixed == k * (x * l + y * l + z * l)) by (nonlinear_arith)
        requires
            mixed == k * (x * l) + k * (y * l) + k * (z * l),
    ;
    let ks = k * s;
    assert(2 * mixed <= 7 * ks) by (nonlinear_arith)
        requires
            mixed == k * (x * l + y * l + z * l),
            2 * (x * l + y * l + z * l) <= s + 3 * ll,
            ll <= 2 * s,
            ks == k * s,
            k >= 0,
    ;
    assert(kks == k * ks) by (nonlinear_arith)
        requires
            kks == (k * k) * s,
            ks == k * s,
            kk == k * k,
    ;
    assert(0x1_0000_0000 * ks <= kks && ks >= 0 && s <= ks) by (nonlinear_arith)
        requires
            kks == k * ks,
            ks == k * s,
            k >= 0x1_0000_0000,
            s >= 0,
    ;
    let total = size(gx * gx - fx * fx) + size(gy * gy - fy * fy) + size(gz * gz - fz * fz);
    assert(size(sul - kks) <= total);
    assert(0x1_0000_0000_0000 * total <= 100_663_305 * kks + 562_950_054_084_608 * mixed + 3 * (0x1_0000_0000_0000
        * ll));
    assert(0x1_0000_0000_0000 * size(sul - kks) <= 0x100_0000 * (9 * kks));
    assert(close(sul, kks, 9));
    // against one
    lemma_close_scaled(ll, s, 11, kk);
    assert(s * kk == kks) by (nonlinear_arith)
        requires
            kks == kk * s,
    ;
    lemma_close_turned(ll * kk, kks, 11);
    lemma_close_twice(sul, kks, ll * kk, 9, 12);
    assert(ll * kk == kk * ll && sul == su * ll) by (nonlinear_arith)
        requires
            sul == su * ll,
    ;
    lemma_close_unscaled(su, kk, 22, ll);
    // the squared length and its root
    assert(8 * h <= su);
    lemma_close_twice(n * k, su, kk, 4, 22);
    assert(n > 0) by (nonlinear_arith)
        requires
            0x100_0000 * size(n * k - kk) <= 27 * kk,
            kk > 0,
            n >= 0,
            k > 0,
    ;
    lemma_close_twice(r * r, n * k, kk, 6, 27);
    lemma_close_roots(r, k, 34);
}

/// Where what binary32 gives for the squares together is at least `80 h`, the exact
/// squares together are at least `8 h`, and the two are within `4 * 2^-24`.
proof fn lemma_squares_kept(k: int, h: int, xx: int, yy: int, zz: int, ax: int, ay: int, az: int, first: int, n: int)
    requires
        k > 0,
        h >= 0,
        xx >= 0 && yy >= 0 && zz >= 0,
        ax >= 0 && ay >= 0 && az >= 0 && first >= 0 && n >= 0,
        80 * h <= n * k,
        0x100_0000 * size(ax * k - xx) <= xx + h,
        0x100_0000 * size(ay * k - yy) <= yy + h,
        0x100_0000 * size(az * k - zz) <= zz + h,
        0x100_0000 * size(first - (ax + ay)) <= ax + ay,
        0x100_0000 * size(n - (first + az)) <= first + az,
    ensures
        8 * h <= xx + yy + zz,
        close(n * k, xx + yy + zz, 4),
{
    let axk = ax * k;
    let ayk = ay * k;
    let azk = az * k;
    let fk = first * k;
    let nk = n * k;
    assert(first <= 2 * (ax + ay) && n <= 2 * (first + az));
    assert(fk <= 2 * (axk + ayk) && nk <= 2 * (fk + azk)) by (nonlinear_arith)
        requires
            first <= 2 * (ax + ay),
            n <= 2 * (first + az),
            axk == ax * k,
            ayk == ay * k,
            azk == az * k,
            fk == first * k,
            nk == n * k,
            k > 0,
    ;
    assert(axk <= 2 * xx + h && ayk <= 2 * yy + h && azk <= 2 * zz + h);
    lemma_squares_together(k, h, xx, yy, zz, ax, ay, az, first, n);
}

/// The sizes of the three numbers squared and summed as a squared length is, against
/// the exact squares: `(x x + y y) + z z`, where the result is a finite number. All
/// three numbers are finite, no square and no sum is negative, each square errs by at
/// most `2^-24` of itself and `2^172`, and each sum by at most `2^-24` of itself.
pub proof fn lemma_squared_length_parts(x: F32, y: F32, z: F32)
    requires
        x.mul_spec(x).add_spec(y.mul_spec(y)).add_spec(z.mul_spec(z)).finite(),
    ensures
        x.finite() && y.finite() && z.finite(),
        ({
            let k = pow2(149) as int;
            let h = pow2(172) as int;
            let sx = size(whole(x));
            let sy = size(whole(y));
            let sz = size(whole(z));
            let ax = whole(x.mul_spec(x));
            let ay = whole(y.mul_spec(y));
            let az = whole(z.mul_spec(z));
            let first = whole(x.mul_spec(x).add_spec(y.mul_spec(y)));
            let n = whole(x.mul_spec(x).add_spec(y.mul_spec(y)).add_spec(z.mul_spec(z)));
            &&& ax >= 0 && ay >= 0 && az >= 0 && first >= 0 && n >= 0
            &&& !x.mul_spec(x).add_spec(y.mul_spec(y)).add_spec(z.mul_spec(z)).negative()
            &&& 0x100_0000 * size(ax * k - sx * sx) <= sx * sx + h
            &&& 0x100_0000 * size(ay * k - sy * sy) <= sy * sy + h
            &&& 0x100_0000 * size(az * k - sz * sz) <= sz * sz + h
            &&& 0x100_0000 * size(first - (ax + ay)) <= ax + ay
            &&& 0x100_0000 * size(n - (first + az)) <= first + az
        }),
{
    let xx = x.mul_spec(x);
    let yy = y.mul_spec(y);
    let zz = z.mul_spec(z);
    let first = xx.add_spec(yy);
    lemma_finite_parts(first, zz);
    lemma_finite_parts(xx, yy);
    lemma_finite_parts(x, x);
    lemma_finite_parts(y, y);
    lemma_finite_parts(z, z);
    lemma_whole(xx);
    lemma_whole(yy);
    lemma_whole(zz);
    lemma_whole(first);
    lemma_whole(first.add_spec(zz));
    lemma_whole(x);
    lemma_whole(y);
    lemma_whole(z);
    lemma_product_error(x, x);
    lemma_product_error(y, y);
    lemma_product_error(z, z);
    lemma_sum_error(xx, yy);
    lemma_sum_error(first, zz);
    assert(whole(x) * whole(x) == size(whole(x)) * size(whole(x)) && whole(x) * whole(x) >= 0) by (nonlinear_arith);
    assert(whole(y) * whole(y) == size(whole(y)) * size(whole(y)) && whole(y) * whole(y) >= 0) by (nonlinear_arith);
    assert(whole(z) * whole(z) == size(whole(z)) * size(whole(z)) && whole(z) * whole(z) >= 0) by (nonlinear_arith);
}

/// The length of a vector divided by its own length is one: where the squared length of
/// `(x, y, z)` is a finite number of at least `2^-64`, the three numbers divided by the
/// length are finite and at most two, their squares together are within `22 * 2^-24` of
/// one, and their length is finite and within `34 * 2^-24` of one.
pub proof fn lemma_unit_length(x: F32, y: F32, z: F32)
    requires
        x.mul_spec(x).add_spec(y.mul_spec(y)).add_spec(z.mul_spec(z)).finite(),
        x.mul_spec(x).add_spec(y.mul_spec(y)).add_spec(z.mul_spec(z)).magnitude() >= 0x1f80_0000,
    ensures
        ({
            let l = x.mul_spec(x).add_spec(y.mul_spec(y)).add_spec(z.mul_spec(z)).sqrt_spec();
            let ux = x.div_spec(l);
            let uy = y.div_spec(l);
            let uz = z.div_spec(l);
            let r = ux.mul_spec(ux).add_spec(uy.mul_spec(uy)).add_spec(uz.mul_spec(uz)).sqrt_spec();
            let bx = size(whole(ux));
            let by = size(whole(uy));
            let bz = size(whole(uz));
            &&& l.finite() && !l.zero()
            &&& ux.finite() && uy.finite() && uz.finite()
            &&& bx <= pow2(150) && by <= pow2(150) && bz <= pow2(150)
            &&& close(bx * bx + by * by + bz * bz, (pow2(149) * pow2(149)) as int, 22)
            &&& r.finite()
            &&& close(whole(r), pow2(149) as int, 34)
        }),
{
    let k = pow2(149) as int;
    let h = pow2(172) as int;
    let n2 = x.mul_spec(x).add_spec(y.mul_spec(y)).add_spec(z.mul_spec(z));
    let l = n2.sqrt_spec();
    let ux = x.div_spec(l);
    let uy = y.div_spec(l);
    let uz = z.div_spec(l);
    let m2 = ux.mul_spec(ux).add_spec(uy.mul_spec(uy)).add_spec(uz.mul_spec(uz));
    let r = m2.sqrt_spec();
    // powers of two
    lemma2_to64();
    lemma_pow2_pos(149);
    lemma_pow2_pos(172);
    lemma_pow2_adds(149, 149);
    lemma_pow2_adds(4, 172);
    lemma_pow2_adds(7, 172);
    lemma_pow2_adds(85, 149);
    lemma_pow2_adds(23, 62);
    lemma_pow2_adds(32, 117);
    lemma_pow2_pos(117);
    lemma_pow2_increases(176, 298);
    lemma_pow2_increases(179, 234);
    assert(k >= 0x1_0000_0000) by (nonlinear_arith)
        requires
            k == 0x1_0000_0000 * pow2(117),
            pow2(117) >= 1,
    ;
    assert(16 * h <= k * k);
    // the squared length and the length
    lemma_squared_length_parts(x, y, z);
    let low = F32 { bits: 0x1f80_0000 };
    assert(low.significand() == 0x80_0000 && low.exponent() == -87);
    lemma_whole(low);
    lemma_whole(n2);
    lemma_sizes_order(low, n2);
    let n = whole(n2);
    assert(n >= pow2(85));
    assert(80 * h <= n * k) by (nonlinear_arith)
        requires
            n >= pow2(85),
            pow2(85) * k == pow2(234),
            128 * h == pow2(179),
            pow2(179) <= pow2(234),
            k > 0,
            h >= 0,
    ;
    let sx = size(whole(x));
    let sy = size(whole(y));
    let sz = size(whole(z));
    assert(sx * sx >= 0 && sy * sy >= 0 && sz * sz >= 0) by (nonlinear_arith);
    lemma_squares_kept(
        k,
        h,
        sx * sx,
        sy * sy,
        sz * sz,
        whole(x.mul_spec(x)),
        whole(y.mul_spec(y)),
        whole(z.mul_spec(z)),
        whole(x.mul_spec(x).add_spec(y.mul_spec(y))),
        n,
    );
    lemma_root_error(n2);
    lemma_whole(l);
    let lam = whole(l);
    lemma_close_twice(lam * lam, n * k, sx * sx + sy * sy + sz * sz, 6, 4);
    // no component is more than twice the length, so that all that follows is finite
    let total = sx * sx + sy * sy + sz * sz;
    let ll = lam * lam;
    assert(total <= 2 * ll);
    assert(sx <= 2 * lam && sy <= 2 * lam && sz <= 2 * lam) by (nonlinear_arith)
        requires
            sx * sx + sy * sy + sz * sz <= 2 * (lam * lam),
            sx >= 0 && sy >= 0 && sz >= 0 && lam >= 0,
    ;
    lemma_whole(x);
    lemma_whole(y);
    lemma_whole(z);
    lemma_quotient_is_bounded(x, l);
    lemma_quotient_is_bounded(y, l);
    lemma_quotient_is_bounded(z, l);
    lemma_product_is_bounded(ux, ux, 1, 1);
    lemma_product_is_bounded(uy, uy, 1, 1);
    lemma_product_is_bounded(uz, uz, 1, 1);
    lemma_finite_parts(ux, ux);
    lemma_finite_parts(uy, uy);
    lemma_finite_parts(uz, uz);
    lemma_whole(ux.mul_spec(ux));
    lemma_whole(uy.mul_spec(uy));
    lemma_whole(uz.mul_spec(uz));
    lemma_pow2_increases(151, 152);
    lemma_sum_is_bounded(ux.mul_spec(ux), uy.mul_spec(uy), 2);
    lemma_sum_is_bounded(ux.mul_spec(ux).add_spec(uy.mul_spec(uy)), uz.mul_spec(uz), 3);
    // the three quotients
    lemma_squared_length_parts(ux, uy, uz);
    lemma_quotient_error(x, l);
    lemma_quotient_error(y, l);
    lemma_quotient_error(z, l);
    let bx = size(whole(ux));
    let by = size(whole(uy));
    let bz = size(whole(uz));
    assert(bx * bx >= 0 && by * by >= 0 && bz * bz >= 0) by (nonlinear_arith);
    let m = whole(m2);
    if 8 * h <= bx * bx + by * by + bz * bz {
        lemma_squares_together(
            k,
            h,
            bx * bx,
            by * by,
            bz * bz,
            whole(ux.mul_spec(ux)),
            whole(uy.mul_spec(uy)),
            whole(uz.mul_spec(uz)),
            whole(ux.mul_spec(ux).add_spec(uy.mul_spec(uy))),
            m,
        );
    }
    lemma_whole(m2);
    if m > 0 {
        lemma_root_error(m2);
    } else {
        reveal(F32::sqrt_spec);
        assert(r == m2);
    }
    lemma_whole(r);
    lemma_normalised(k, h, sx, sy, sz, lam, bx, by, bz, m, whole(r));
}

/// The length of a scaled unit vector in whole numbers. `k` stands for one, `h` for the
/// half of the least place and `l` for `h / 2^24`; `c` is the scale, at least one; `ux`,
/// `uy`, `uz` are the sizes of the components of the unit vector, `wx`, `wy`, `wz` those
/// of the scaled one, `n` its squared length and `r` the root of that, as binary32 gives
/// them. Where the squares of the unit vector together are within `22 * 2^-24` of one,
/// each product errs as a product does, `n` is within `4 * 2^-24` of the exact squares
/// together unless these are lost, and `r^2` within `6 * 2^-24` of `n` unless that is zero,
/// the length `r` is within `43 * 2^-24` of the scale.
proof fn lemma_scaled(
    k: int,
    h: int,
    l: int,
    c: int,
    ux: int,
    uy: int,
    uz: int,
    wx: int,
    wy: int,
    wz: int,
    n: int,
    r: int,
)
    requires
        k >= 0x1_0000_0000_0000_0000,
        h == 0x100_0000 * l,
        l >= 0,
        0x1_0000_0000_0000_0000 * l <= k * k,
        c >= k,
        ux >= 0 && uy >= 0 && uz >= 0 && wx >= 0 && wy >= 0 && wz >= 0 && n >= 0 && r >= 0,
        close(ux * ux + uy * uy + uz * uz, k * k, 22),
        0x100_0000 * size(wx * k - ux * c) <= ux * c + h,
        0x100_0000 * size(wy * k - uy * c) <= uy * c + h,
        0x100_0000 * size(wz * k - uz * c) <= uz * c + h,
        8 * h <= wx * wx + wy * wy + wz * wz ==> close(n * k, wx * wx + wy * wy + wz * wz, 4),
        n > 0 ==> close(r * r, n * k, 6),
    ensures
        close(r, c, 43),
{
    let kk = k * k;
    let cc = c * c;
    let su = ux * ux + uy * uy + uz * uz;
    let sw = wx * wx + wy * wy + wz * wz;
    let gx = wx * k;
    let gy = wy * k;
    let gz = wz * k;
    let fx = ux * c;
    let fy = uy * c;
    let fz = uz * c;
    let ll = l * l;
    assert(gx >= 0 && gy >= 0 && gz >= 0 && fx >= 0 && fy >= 0 && fz >= 0 && su >= 0 && sw >= 0 && kk > 0 && cc
        >= kk && ll >= 0) by (nonlinear_arith)
        requires
            gx == wx * k,
            gy == wy * k,
            gz == wz * k,
            fx == ux * c,
            fy == uy * c,
            fz == uz * c,
            su == ux * ux + uy * uy + uz * uz,
            sw == wx * wx + wy * wy + wz * wz,
            kk == k * k,
            cc == c * c,
            ll == l * l,
            ux >= 0 && uy >= 0 && uz >= 0 && wx >= 0 && wy >= 0 && wz >= 0 && c >= k && k > 0,
    ;
    lemma_square_of_quotient(gx, fx, l);
    lemma_square_of_quotient(gy, fy, l);
    lemma_square_of_quotient(gz, fz, l);
    // the squares together
    let ccsu = cc * su;
    assert(fx * fx == cc * (ux * ux)) by (nonlinear_arith)
        requires
            fx == ux * c,
            cc == c * c,
    ;
    assert(fy * fy == cc * (uy * uy)) by (nonlinear_arith)
        requires
            fy == uy * c,
            cc == c * c,
    ;
    assert(fz * fz == cc * (uz * uz)) by (nonlinear_arith)
        requires
            fz == uz * c,
            cc == c * c,
    ;
    assert(ccsu == cc * (ux * ux) + cc * (uy * uy) + cc * (uz * uz)) by (nonlinear_arith)
        requires
            ccsu == cc * su,
            su == ux * ux + uy * uy + uz * uz,
    ;
    let kksw = kk * sw;
    assert(gx * gx == kk * (wx * wx)) by (nonlinear_arith)
        requires
            gx == wx * k,
            kk == k * k,
    ;
    assert(gy * gy == kk * (wy * wy)) by (nonlinear_arith)
        requires
            gy == wy * k,
            kk == k * k,
    ;
    assert(gz * gz == kk * (wz * wz)) by (nonlinear_arith)
        requires
            gz == wz * k,
            kk == k * k,
    ;
    assert(kksw == kk * (wx * wx) + kk * (wy * wy) + kk * (wz * wz)) by (nonlinear_arith)
        requires
            kksw == kk * sw,
            sw == wx * wx + wy * wy + wz * wz,
    ;
    // the least place against the products: 2^27 f l <= f f + 2^52 l l
    assert(0x800_0000 * (fx * l) <= fx * fx + 0x10_0000_0000_0000 * ll) by (nonlinear_arith)
        requires
            ll == l * l,
    ;
    assert(0x800_0000 * (fy * l) <= fy * fy + 0x10_0000_0000_0000 * ll) by (nonlinear_arith)
        requires
            ll == l * l,
    ;
    assert(0x800_0000 * (fz * l) <= fz * fz + 0x10_0000_0000_0000 * ll) by (nonlinear_arith)
        requires
            ll == l * l,
    ;
    // the squares of the unit vector are at least a half, so that the least place is lost
    // in them
    assert(2 * su >= kk);
    assert(2 * ccsu >= kk * kk) by (nonlinear_arith)
        requires
            ccsu == cc * su,
            2 * su >= kk,
            cc >= kk,
            kk > 0,
    ;
    let big = 0x1_0000_0000_0000_0000 * l;
    assert(big * big <= kk * kk) by (nonlinear_arith)
        requires
            0 <= big <= kk,
    ;
    assert(big * big == 0x1_0000_0000_0000_0000_0000_0000_0000_0000 * ll) by (nonlinear_arith)
        requires
            big == 0x1_0000_0000_0000_0000 * l,
            ll == l * l,
    ;
    let mixed = fx * l + fy * l + fz * l;
    let total = size(gx * gx - fx * fx) + size(gy * gy - fy * fy) + size(gz * gz - fz * fz);
    assert(size(kksw - ccsu) <= total);
    assert(0x1_0000_0000_0000 * total <= 100_663_305 * ccsu + 562_950_054_084_608 * mixed + 3 * (0x1_0000_0000_0000
        * ll));
    assert(0x800_0000 * mixed <= ccsu + 3 * (0x10_0000_0000_0000 * ll));
    assert(0x1_0000_0000_0000 * size(kksw - ccsu) <= 0x100_0000 * (8 * ccsu));
    assert(kksw >= 0 && ccsu >= 0) by (nonlinear_arith)
        requires
            kksw == kk * sw,
            ccsu == cc * su,
            kk > 0,
            cc > 0,
            sw >= 0,
            su >= 0,
    ;
    assert(close(kksw, ccsu, 8));
    // against the scale
    lemma_close_scaled(su, kk, 22, cc);
    assert(su * cc == ccsu) by (nonlinear_arith)
        requires
            ccsu == cc * su,
    ;
    lemma_close_twice(kksw, ccsu, kk * cc, 8, 22);
    assert(kksw == sw * kk && kk * cc == cc * kk) by (nonlinear_arith)
        requires
            kksw == kk * sw,
    ;
    lemma_close_unscaled(sw, cc, 31, kk);
    // the squared length and its root
    assert(16 * h <= kk);
    assert(8 * h <= sw);
    lemma_close_twice(n * k, sw, cc, 4, 31);
    assert(n > 0) by (nonlinear_arith)
        requires
            0x100_0000 * size(n * k - cc) <= 36 * cc,
            cc > 0,
            n >= 0,
            k > 0,
    ;
    lemma_close_twice(r * r, n * k, cc, 6, 36);
    lemma_close_roots(r, c, 43);
}

/// The error of a product by a number that is not negative, in sizes: with the sizes
/// of the whole numbers of a finite product and of `a`, and the whole number of `c`, the
/// product times `2^149`, less `a` times `c`, times `2^24`, is no larger than `a` times
/// `c` and `2^172`.
pub proof fn lemma_scaled_error_sizes(a: F32, c: F32)
    requires
        a.finite(),
        c.finite(),
        !c.negative(),
        a.mul_spec(c).finite(),
    ensures
        whole(c) >= 0,
        0x100_0000 * size(size(whole(a.mul_spec(c))) * pow2(149) - size(whole(a)) * whole(c)) <= size(whole(a))
            * whole(c) + pow2(172),
{
    reveal(F32::mul_spec);
    lemma_product_error(a, c);
    lemma_whole(a);
    lemma_whole(c);
    lemma_whole(a.mul_spec(c));
    let w = whole(a.mul_spec(c));
    let u = whole(a);
    let k = pow2(149) as int;
    let cc = whole(c);
    lemma_pow2_pos(149);
    lemma_round_bound(a.significand() * c.significand(), a.exponent() + c.exponent(), false);
    assert(a.mul_spec(c).negative() == a.negative());
    assert(size(size(w) * k - size(u) * cc) == size(w * k - u * cc) && size(u * cc) == size(u) * cc)
        by (nonlinear_arith)
        requires
            cc >= 0,
            k > 0,
            (u <= 0 && w <= 0) || (u >= 0 && w >= 0),
    ;
}

/// A vector scaled to a length has that length: where the squared length of `(x, y, z)`
/// is a finite number of at least `2^-64`, and `c` is a number from 1 to `2^20`, the
/// three numbers divided by their length and multiplied by `c` are finite, and their
/// length is finite and within `43 * 2^-24` of `c`.
pub proof fn lemma_scaled_length(x: F32, y: F32, z: F32, c: F32)
    requires
        x.mul_spec(x).add_spec(y.mul_spec(y)).add_spec(z.mul_spec(z)).finite(),
        x.mul_spec(x).add_spec(y.mul_spec(y)).add_spec(z.mul_spec(z)).magnitude() >= 0x1f80_0000,
        c.finite(),
        !c.negative(),
        pow2(149) <= whole(c) <= pow2(169),
    ensures
        ({
            let l = x.mul_spec(x).add_spec(y.mul_spec(y)).add_spec(z.mul_spec(z)).sqrt_spec();
            let wx = x.div_spec(l).mul_spec(c);
            let wy = y.div_spec(l).mul_spec(c);
            let wz = z.div_spec(l).mul_spec(c);
            let r = wx.mul_spec(wx).add_spec(wy.mul_spec(wy)).add_spec(wz.mul_spec(wz)).sqrt_spec();
            &&& !l.zero()
            &&& wx.finite() && wy.finite() && wz.finite()
            &&& r.finite()
            &&& close(whole(r), whole(c), 43)
        }),
{
    let k = pow2(149) as int;
    let h = pow2(172) as int;
    let low = pow2(148) as int;
    let l = x.mul_spec(x).add_spec(y.mul_spec(y)).add_spec(z.mul_spec(z)).sqrt_spec();
    let ux = x.div_spec(l);
    let uy = y.div_spec(l);
    let uz = z.div_spec(l);
    let wx = ux.mul_spec(c);
    let wy = uy.mul_spec(c);
    let wz = uz.mul_spec(c);
    let m2 = wx.mul_spec(wx).add_spec(wy.mul_spec(wy)).add_spec(wz.mul_spec(wz));
    let r = m2.sqrt_spec();
    lemma2_to64();
    lemma_pow2_pos(148);
    lemma_pow2_pos(149);
    lemma_pow2_adds(24, 148);
    lemma_pow2_adds(64, 85);
    lemma_pow2_pos(85);
    lemma_pow2_adds(149, 149);
    lemma_pow2_adds(64, 148);
    lemma_pow2_increases(212, 298);
    assert(k >= 0x1_0000_0000_0000_0000) by (nonlinear_arith)
        requires
            k == 0x1_0000_0000_0000_0000 * pow2(85),
            pow2(85) >= 1,
    ;
    lemma_unit_length(x, y, z);
    // the scaled numbers and their squares are finite
    lemma_pow2_increases(149, 169);
    lemma_product_is_bounded(ux, c, 1, 20);
    lemma_product_is_bounded(uy, c, 1, 20);
    lemma_product_is_bounded(uz, c, 1, 20);
    lemma_product_is_bounded(wx, wx, 21, 21);
    lemma_product_is_bounded(wy, wy, 21, 21);
    lemma_product_is_bounded(wz, wz, 21, 21);
    lemma_finite_parts(wx, wx);
    lemma_finite_parts(wy, wy);
    lemma_finite_parts(wz, wz);
    lemma_whole(wx.mul_spec(wx));
    lemma_whole(wy.mul_spec(wy));
    lemma_whole(wz.mul_spec(wz));
    lemma_sum_is_bounded(wx.mul_spec(wx), wy.mul_spec(wy), 42);
    lemma_pow2_increases(191, 192);
    lemma_sum_is_bounded(wx.mul_spec(wx).add_spec(wy.mul_spec(wy)), wz.mul_spec(wz), 43);
    // the errors
    lemma_scaled_error_sizes(ux, c);
    lemma_scaled_error_sizes(uy, c);
    lemma_scaled_error_sizes(uz, c);
    lemma_squared_length_parts(wx, wy, wz);
    let bx = size(whole(wx));
    let by = size(whole(wy));
    let bz = size(whole(wz));
    assert(bx * bx >= 0 && by * by >= 0 && bz * bz >= 0) by (nonlinear_arith);
    let m = whole(m2);
    if 8 * h <= bx * bx + by * by + bz * bz {
        lemma_squares_together(
            k,
            h,
            bx * bx,
            by * by,
            bz * bz,
            whole(wx.mul_spec(wx)),
            whole(wy.mul_spec(wy)),
            whole(wz.mul_spec(wz)),
            whole(wx.mul_spec(wx).add_spec(wy.mul_spec(wy))),
            m,
        );
    }
    lemma_whole(m2);
    if m > 0 {
        lemma_root_error(m2);
    } else {
        reveal(F32::sqrt_spec);
        assert(r == m2);
    }
    lemma_whole(r);
    lemma_scaled(
        k,
        h,
        low,
        whole(c),
        size(whole(ux)),
        size(whole(uy)),
        size(whole(uz)),
        bx,
        by,
        bz,
        m,
        whole(r),
    );
}

} // verus!
