//! A turn in a plane and the turn back: two numbers turned by an angle, and then by the
//! angle negated, come back to within a few rounding errors.

use crate::error_laws::{
    lemma_product_does_not_grow, lemma_product_error, lemma_scaled_error, lemma_size_of_product, lemma_sizes_order,
    lemma_sum_error, lemma_whole, size, whole,
};
use crate::single::F32;
use crate::single_laws::lemma_mul_neg;
use vstd::arithmetic::power2::{lemma2_to64, lemma_pow2_adds, lemma_pow2_pos, pow2};
use vstd::prelude::*;

verus! {

/// One half of a turn in whole numbers: two products `a` and `b`, of `x` and `y` with two
/// factors of size `k` at most, and their sum or difference `r`. `xc` and `yc` are the
/// exact products, `k` stands for one and `t` for `2^24`. Each product errs by at most
/// `2^-24` of itself and `h`, and is no larger than `x` or `y`; the sum errs by at most
/// `2^-24` of itself. Then `r` is no larger than twice `x` and `y` together, and errs by
/// at most `2^-24` of twice the two together, and `2 h`.
proof fn lemma_half_turn(
    k: int,
    t: int,
    h: int,
    xc: int,
    yc: int,
    size_x: int,
    size_y: int,
    a: int,
    b: int,
    r: int,
    plus: bool,
)
    requires
        k > 0,
        t >= 1,
        h >= 0,
        size(xc) <= size_x * k,
        size(yc) <= size_y * k,
        t * size(a * k - xc) <= size(xc) + h,
        t * size(b * k - yc) <= size(yc) + h,
        size(a) <= size_x,
        size(b) <= size_y,
        plus ==> t * size(r - (a + b)) <= size(a + b),
        !plus ==> t * size(r - (a - b)) <= size(a - b),
    ensures
        size(r) <= 2 * (size_x + size_y),
        plus ==> t * size(r * k - (xc + yc)) <= 2 * ((size_x + size_y) * k) + 2 * h,
        !plus ==> t * size(r * k - (xc - yc)) <= 2 * ((size_x + size_y) * k) + 2 * h,
{
    let sum = if plus {
        a + b
    } else {
        a - b
    };
    let d = r - sum;
    let m = size_x + size_y;
    assert(size(sum) <= m);
    assert(size(d) <= m) by (nonlinear_arith)
        requires
            t * size(d) <= m,
            t >= 1,
            size(d) >= 0,
    ;
    lemma_scaled_error(t, d, k, m);
    let dk = d * k;
    let ak = a * k;
    let bk = b * k;
    assert(r * k == if plus {
        ak + bk + dk
    } else {
        ak - bk + dk
    }) by (nonlinear_arith)
        requires
            r == sum + d,
            sum == if plus {
                a + b
            } else {
                a - b
            },
            dk == d * k,
            ak == a * k,
            bk == b * k,
    ;
    let e1 = t * size(ak - xc);
    let e2 = t * size(bk - yc);
    let e3 = t * size(dk);
    assert(m * k == size_x * k + size_y * k) by (nonlinear_arith)
        requires
            m == size_x + size_y,
    ;
    let target = if plus {
        xc + yc
    } else {
        xc - yc
    };
    let rest = r * k - target;
    assert(size(rest) <= size(ak - xc) + size(bk - yc) + size(dk));
    assert(t * size(rest) <= e1 + e2 + e3) by (nonlinear_arith)
        requires
            size(rest) <= size(ak - xc) + size(bk - yc) + size(dk),
            e1 == t * size(ak - xc),
            e2 == t * size(bk - yc),
            e3 == t * size(dk),
            t >= 1,
    ;
}

/// One turn in a plane and the turn back, in whole numbers. `k` stands for one, `t` for
/// `2^24`; `p` and `q` are the two numbers, `s` and `c` the sine and cosine. `a1`, `b1`,
/// `a2`, `b2` are the four products of the turn, `p1` and `q1` its two sums. The turn back
/// starts from `p1b` and `q1b`, which are within `dp` and `dq` of `p1` and `q1`; `a3`, `b3`
/// are its products and `p2` the sum that gives the first number back. Each product errs
/// by at most `2^-24` of itself and `h`, each sum by at most `2^-24` of itself, no product
/// is larger than its first number, and `s^2 + c^2` is within `4 * 2^-24` of one. Then
/// `p2` is within `16 * 2^-24` of the sizes of `p` and `q` together, and 3, and a little
/// more than `dp` and `dq`, of `p`.
proof fn lemma_turn_and_back(
    k: int,
    t: int,
    h: int,
    p: int,
    q: int,
    s: int,
    c: int,
    a1: int,
    b1: int,
    p1: int,
    a2: int,
    b2: int,
    q1: int,
    p1b: int,
    q1b: int,
    dp: int,
    dq: int,
    a3: int,
    b3: int,
    p2: int,
)
    requires
        k > 0,
        t >= 1,
        h >= 0,
        6 * (h * k) == 3 * (t * (k * k)),
        size(s) <= k,
        size(c) <= k,
        t * size(s * s + c * c - k * k) <= 4 * (k * k),
        t * size(a1 * k - p * c) <= size(p * c) + h,
        t * size(b1 * k - q * s) <= size(q * s) + h,
        t * size(a2 * k - p * s) <= size(p * s) + h,
        t * size(b2 * k - q * c) <= size(q * c) + h,
        size(p1b - p1) <= dp,
        size(q1b - q1) <= dq,
        t * size(a3 * k - p1b * c) <= size(p1b * c) + h,
        t * size(b3 * k - q1b * s) <= size(q1b * s) + h,
        t * size(p1 - (a1 - b1)) <= size(a1 - b1),
        t * size(q1 - (a2 + b2)) <= size(a2 + b2),
        t * size(p2 - (a3 + b3)) <= size(a3 + b3),
        size(a1) <= size(p),
        size(b1) <= size(q),
        size(a2) <= size(p),
        size(b2) <= size(q),
        size(a3) <= size(p1b),
        size(b3) <= size(q1b),
    ensures
        t * size(p2 - p) <= 16 * (size(p) + size(q)) + 3 * t + (t + 2) * (dp + dq),
{
    let m = size(p) + size(q);
    let kk = k * k;
    let pc = p * c;
    let qs = q * s;
    let ps = p * s;
    let qc = q * c;
    let p1c = p1b * c;
    let q1s = q1b * s;
    lemma_size_of_product(p, c, size(p), k);
    lemma_size_of_product(q, s, size(q), k);
    lemma_size_of_product(p, s, size(p), k);
    lemma_size_of_product(q, c, size(q), k);
    // the turn
    lemma_half_turn(k, t, h, pc, qs, size(p), size(q), a1, b1, p1, false);
    lemma_half_turn(k, t, h, ps, qc, size(p), size(q), a2, b2, q1, true);
    let g1 = p1 * k - (pc - qs);
    let g2 = q1 * k - (ps + qc);
    // the turn back
    let d = dp + dq;
    lemma_size_of_product(p1b, c, 2 * m + dp, k);
    lemma_size_of_product(q1b, s, 2 * m + dq, k);
    lemma_half_turn(k, t, h, p1c, q1s, 2 * m + dp, 2 * m + dq, a3, b3, p2, true);
    let g3 = p2 * k - (p1c + q1s);
    assert(((2 * m + dp) + (2 * m + dq)) * k == 4 * (m * k) + d * k) by (nonlinear_arith)
        requires
            d == dp + dq,
    ;
    // what is left is made of the three errors and of what the turn back started from
    lemma_scaled_error(t, g1, k, 2 * (m * k) + 2 * h);
    lemma_scaled_error(t, g2, k, 2 * (m * k) + 2 * h);
    lemma_scaled_error(t, g3, k, 8 * (m * k) + 2 * (d * k) + 2 * h);
    lemma_size_of_product(g1, c, size(g1), k);
    lemma_size_of_product(g2, s, size(g2), k);
    let g1c = g1 * c;
    let g2s = g2 * s;
    let g3k = g3 * k;
    assert(t * size(g1c) <= (2 * (m * k) + 2 * h) * k) by (nonlinear_arith)
        requires
            size(g1c) <= size(g1) * k,
            size(g1 * k) == size(g1) * k,
            t * size(g1 * k) <= (2 * (m * k) + 2 * h) * k,
            t >= 1,
    ;
    assert(t * size(g2s) <= (2 * (m * k) + 2 * h) * k) by (nonlinear_arith)
        requires
            size(g2s) <= size(g2) * k,
            size(g2 * k) == size(g2) * k,
            t * size(g2 * k) <= (2 * (m * k) + 2 * h) * k,
            t >= 1,
    ;
    let dkk = d * kk;
    assert((2 * (m * k) + 2 * h) * k == 2 * (m * kk) + 2 * (h * k) && (8 * (m * k) + 2 * (d * k) + 2 * h) * k == 8
        * (m * kk) + 2 * dkk + 2 * (h * k)) by (nonlinear_arith)
        requires
            kk == k * k,
            dkk == d * kk,
    ;
    // the start of the turn back against the end of the turn
    let ep = (p1b - p1) * c;
    let eq = (q1b - q1) * s;
    lemma_size_of_product(p1b - p1, c, dp, k);
    lemma_size_of_product(q1b - q1, s, dq, k);
    lemma_scaled_error(1, ep, k, dp * k);
    lemma_scaled_error(1, eq, k, dq * k);
    let epk = ep * k;
    let eqk = eq * k;
    assert((dp * k) * k + (dq * k) * k == dkk) by (nonlinear_arith)
        requires
            dkk == (dp + dq) * (k * k),
    ;
    assert(size(epk) + size(eqk) <= dkk);
    // p2 k k = p (c c + s s) + g1 c + g2 s + g3 k + ep k + eq k
    let p1k = p1 * k;
    let q1k = q1 * k;
    assert(p1c * k == p1k * c + epk && q1s * k == q1k * s + eqk) by (nonlinear_arith)
        requires
            p1c == p1b * c,
            q1s == q1b * s,
            p1k == p1 * k,
            q1k == q1 * k,
            epk == ((p1b - p1) * c) * k,
            eqk == ((q1b - q1) * s) * k,
    ;
    assert(p1k * c == pc * c - qs * c + g1c) by (nonlinear_arith)
        requires
            p1k == pc - qs + g1,
            g1c == g1 * c,
    ;
    assert(q1k * s == ps * s + qc * s + g2s) by (nonlinear_arith)
        requires
            q1k == ps + qc + g2,
            g2s == g2 * s,
    ;
    assert(qs * c == qc * s) by (nonlinear_arith)
        requires
            qs == q * s,
            qc == q * c,
    ;
    assert(pc * c + ps * s == p * (c * c + s * s)) by (nonlinear_arith)
        requires
            pc == p * c,
            ps == p * s,
    ;
    let p2k = p2 * k;
    assert(p2k * k == p1c * k + q1s * k + g3k) by (nonlinear_arith)
        requires
            p2k == p1c + q1s + g3,
            g3k == g3 * k,
    ;
    assert(p2k * k == p2 * kk) by (nonlinear_arith)
        requires
            p2k == p2 * k,
            kk == k * k,
    ;
    let off = s * s + c * c - kk;
    let poff = p * off;
    assert(p * (c * c + s * s) == p * kk + poff) by (nonlinear_arith)
        requires
            off == s * s + c * c - kk,
            poff == p * off,
    ;
    let rest = g1c + g2s + g3k + poff + epk + eqk;
    assert(p2 * kk - p * kk == rest);
    // the sine and the cosine
    lemma_size_of_product(p, off, size(p), size(off));
    assert(t * size(poff) <= 4 * (m * kk)) by (nonlinear_arith)
        requires
            size(poff) == size(p) * size(off),
            t * size(off) <= 4 * kk,
            0 <= size(p) <= m,
            kk >= 0,
            size(off) >= 0,
            t >= 1,
    ;
    let e1 = t * size(g1c);
    let e2 = t * size(g2s);
    let e3 = t * size(g3k);
    let e4 = t * size(poff);
    let e5 = t * (size(epk) + size(eqk));
    assert(e5 <= t * dkk) by (nonlinear_arith)
        requires
            e5 == t * (size(epk) + size(eqk)),
            size(epk) + size(eqk) <= dkk,
            t >= 1,
    ;
    assert(t * size(rest) <= e1 + e2 + e3 + e4 + e5) by (nonlinear_arith)
        requires
            size(rest) <= size(g1c) + size(g2s) + size(g3k) + size(poff) + (size(epk) + size(eqk)),
            e1 == t * size(g1c),
            e2 == t * size(g2s),
            e3 == t * size(g3k),
            e4 == t * size(poff),
            e5 == t * (size(epk) + size(eqk)),
            t >= 1,
    ;
    assert(t * size(rest) <= 16 * (m * kk) + 6 * (h * k) + 2 * dkk + t * dkk);
    let diff = p2 - p;
    assert(diff * kk == rest) by (nonlinear_arith)
        requires
            diff == p2 - p,
            p2 * kk - p * kk == rest,
    ;
    assert(kk > 0) by (nonlinear_arith)
        requires
            kk == k * k,
            k > 0,
    ;
    lemma_scaled_error(t, diff, kk, t * size(diff));
    assert(t * size(diff) <= 16 * m + 3 * t + (t + 2) * d) by (nonlinear_arith)
        requires
            t * (size(diff) * kk) <= 16 * (m * kk) + 3 * (t * kk) + 2 * dkk + t * dkk,
            dkk == d * kk,
            kk > 0,
    ;
}

/// The turn back gives the second number back too: with `a4` and `b4` the products of
/// `q1b` with the cosine and of `p1b` with the sine, and `q2` their difference, `q2` is
/// within `16 * 2^-24` of the sizes of `p` and `q` together, and 3, and a little more than
/// `dp` and `dq`, of `q`.
proof fn lemma_turn_and_back_second(
    k: int,
    t: int,
    h: int,
    p: int,
    q: int,
    s: int,
    c: int,
    a1: int,
    b1: int,
    p1: int,
    a2: int,
    b2: int,
    q1: int,
    p1b: int,
    q1b: int,
    dp: int,
    dq: int,
    a4: int,
    b4: int,
    q2: int,
)
    requires
        k > 0,
        t >= 1,
        h >= 0,
        6 * (h * k) == 3 * (t * (k * k)),
        size(s) <= k,
        size(c) <= k,
        t * size(s * s + c * c - k * k) <= 4 * (k * k),
        t * size(a1 * k - p * c) <= size(p * c) + h,
        t * size(b1 * k - q * s) <= size(q * s) + h,
        t * size(a2 * k - p * s) <= size(p * s) + h,
        t * size(b2 * k - q * c) <= size(q * c) + h,
        size(p1b - p1) <= dp,
        size(q1b - q1) <= dq,
        t * size(a4 * k - q1b * c) <= size(q1b * c) + h,
        t * size(b4 * k - p1b * s) <= size(p1b * s) + h,
        t * size(p1 - (a1 - b1)) <= size(a1 - b1),
        t * size(q1 - (a2 + b2)) <= size(a2 + b2),
        t * size(q2 - (a4 - b4)) <= size(a4 - b4),
        size(a1) <= size(p),
        size(b1) <= size(q),
        size(a2) <= size(p),
        size(b2) <= size(q),
        size(a4) <= size(q1b),
        size(b4) <= size(p1b),
    ensures
        t * size(q2 - q) <= 16 * (size(p) + size(q)) + 3 * t + (t + 2) * (dp + dq),
{
    let ns = -s;
    assert(ns * ns == s * s) by (nonlinear_arith)
        requires
            ns == -s,
    ;
    assert((-a2) * k - p * ns == -(a2 * k - p * s) && p * ns == -(p * s)) by (nonlinear_arith)
        requires
            ns == -s,
    ;
    assert((-b1) * k - q * ns == -(b1 * k - q * s) && q * ns == -(q * s)) by (nonlinear_arith)
        requires
            ns == -s,
    ;
    assert((-b4) * k - p1b * ns == -(b4 * k - p1b * s) && p1b * ns == -(p1b * s)) by (nonlinear_arith)
        requires
            ns == -s,
    ;
    lemma_turn_and_back(k, t, h, q, p, ns, c, b2, -a2, q1, -b1, a1, p1, q1b, p1b, dq, dp, a4, -b4, q2);
}

/// Whether a sine and a cosine are those of one angle as nearly as binary32 can say:
/// both lie from -1 to 1, and the sum of their squares is within `4 * 2^-24` of one.
pub open spec fn near_unit(s: F32, c: F32) -> bool {
    &&& s.magnitude() <= 0x3f80_0000
    &&& c.magnitude() <= 0x3f80_0000
    &&& 0x100_0000 * size(whole(s) * whole(s) + whole(c) * whole(c) - pow2(149) * pow2(149)) <= 4 * (pow2(149)
        * pow2(149))
}

/// The first of two numbers turned in their plane by an angle of sine `s` and cosine `c`.
pub open spec fn turned_first(p: F32, q: F32, s: F32, c: F32) -> F32 {
    p.mul_spec(c).sub_spec(q.mul_spec(s))
}

/// The second of two numbers turned in their plane.
pub open spec fn turned_second(p: F32, q: F32, s: F32, c: F32) -> F32 {
    p.mul_spec(s).add_spec(q.mul_spec(c))
}

/// Whether `x` is within `16 * 2^-24` of the sizes of `p` and `q` together, and three
/// units of `2^-149`, of `p`.
pub open spec fn back_within(x: F32, p: F32, q: F32) -> bool {
    0x100_0000 * size(whole(x) - whole(p)) <= 16 * (size(whole(p)) + size(whole(q))) + 3 * 0x100_0000
}

/// Whether `x` is within `16 * 2^-24` of the sizes of `p` and `q` together, three units of
/// `2^-149` and a little more than `d` such units, of `p`.
pub open spec fn back_within_and(x: F32, p: F32, q: F32, d: int) -> bool {
    0x100_0000 * size(whole(x) - whole(p)) <= 16 * (size(whole(p)) + size(whole(q))) + 3 * 0x100_0000
        + 0x100_0002 * d
}

/// A turn back from near the end of a turn returns both numbers nearly: two finite
/// numbers are turned in their plane by an angle; two numbers `pb` and `qb`, which
/// together lie `d` units of `2^-149` from what the turn gave, are turned by the angle of
/// the same cosine and the sine negated. They come back to within `16 * 2^-24` of the
/// sizes of the first two together, three units, and a little more than `d`. The sine and
/// the cosine are those of one angle as nearly as binary32 can say, and all the numbers
/// are finite.
pub proof fn lemma_plane_turn_back_from_near(p: F32, q: F32, s: F32, c: F32, pb: F32, qb: F32)
    requires
        p.finite(),
        q.finite(),
        near_unit(s, c),
        turned_first(p, q, s, c).finite(),
        turned_second(p, q, s, c).finite(),
        pb.finite(),
        qb.finite(),
        turned_first(pb, qb, s.neg_spec(), c).finite(),
        turned_second(pb, qb, s.neg_spec(), c).finite(),
    ensures
        back_within_and(
            turned_first(pb, qb, s.neg_spec(), c),
            p,
            q,
            size(whole(pb) - whole(turned_first(p, q, s, c))) + size(whole(qb) - whole(turned_second(p, q, s, c))),
        ),
        back_within_and(
            turned_second(pb, qb, s.neg_spec(), c),
            q,
            p,
            size(whole(pb) - whole(turned_first(p, q, s, c))) + size(whole(qb) - whole(turned_second(p, q, s, c))),
        ),
{
    let one = F32 { bits: 0x3f80_0000 };
    let k = pow2(149) as int;
    let t = 0x100_0000int;
    let h = pow2(172) as int;
    // one, and the bound of the least place
    lemma2_to64();
    lemma_pow2_pos(149);
    lemma_pow2_pos(172);
    lemma_pow2_adds(23, 126);
    lemma_pow2_adds(172, 149);
    lemma_pow2_adds(149, 149);
    lemma_pow2_adds(24, 298);
    lemma_pow2_adds(1, 321);
    assert(one.significand() == 0x80_0000 && one.exponent() == -23);
    lemma_whole(one);
    lemma_sizes_order(s, one);
    lemma_sizes_order(c, one);
    assert(6 * (h * k) == 3 * (t * (k * k))) by (nonlinear_arith)
        requires
            h * k == pow2(321),
            k * k == pow2(298),
            t * pow2(298) == pow2(322),
            pow2(322) == 2 * pow2(321),
    ;
    // the turn
    let a1 = p.mul_spec(c);
    let b1 = q.mul_spec(s);
    let a2 = p.mul_spec(s);
    let b2 = q.mul_spec(c);
    lemma_product_does_not_grow(p, c);
    lemma_product_does_not_grow(q, s);
    lemma_product_does_not_grow(p, s);
    lemma_product_does_not_grow(q, c);
    lemma_product_error(p, c);
    lemma_product_error(q, s);
    lemma_product_error(p, s);
    lemma_product_error(q, c);
    let p1 = turned_first(p, q, s, c);
    let q1 = turned_second(p, q, s, c);
    lemma_whole(b1);
    lemma_sum_error(a1, b1.neg_spec());
    lemma_sum_error(a2, b2);
    // the turn back
    let ns = s.neg_spec();
    let a3 = pb.mul_spec(c);
    let b3 = qb.mul_spec(s);
    let a4 = qb.mul_spec(c);
    let b4 = pb.mul_spec(s);
    lemma_product_does_not_grow(pb, c);
    lemma_product_does_not_grow(qb, s);
    lemma_product_does_not_grow(qb, c);
    lemma_product_does_not_grow(pb, s);
    lemma_product_error(pb, c);
    lemma_product_error(qb, s);
    lemma_product_error(qb, c);
    lemma_product_error(pb, s);
    lemma_mul_neg(qb, s);
    lemma_mul_neg(pb, s);
    assert(qb.mul_spec(ns).neg_spec() == b3);
    assert(pb.mul_spec(ns) == b4.neg_spec());
    let p2 = turned_first(pb, qb, ns, c);
    let q2 = turned_second(pb, qb, ns, c);
    assert(p2 == a3.add_spec(b3));
    assert(q2 == b4.neg_spec().add_spec(a4));
    lemma_whole(b4);
    lemma_sum_error(a3, b3);
    lemma_sum_error(b4.neg_spec(), a4);
    let dp = size(whole(pb) - whole(p1));
    let dq = size(whole(qb) - whole(q1));
    lemma_turn_and_back(
        k,
        t,
        h,
        whole(p),
        whole(q),
        whole(s),
        whole(c),
        whole(a1),
        whole(b1),
        whole(p1),
        whole(a2),
        whole(b2),
        whole(q1),
        whole(pb),
        whole(qb),
        dp,
        dq,
        whole(a3),
        whole(b3),
        whole(p2),
    );
    lemma_turn_and_back_second(
        k,
        t,
        h,
        whole(p),
        whole(q),
        whole(s),
        whole(c),
        whole(a1),
        whole(b1),
        whole(p1),
        whole(a2),
        whole(b2),
        whole(q1),
        whole(pb),
        whole(qb),
        dp,
        dq,
        whole(a4),
        whole(b4),
        whole(q2),
    );
}

/// A turn and the turn back return both numbers: two finite numbers turned in their
/// plane by an angle, and then by the angle of the same cosine and the sine negated, come
/// back to within `16 * 2^-24` of their two sizes together, and three units of `2^-149`.
/// The sine and the cosine are those of one angle as nearly as binary32 can say, and the
/// numbers between are finite.
pub proof fn lemma_plane_turn_and_back(p: F32, q: F32, s: F32, c: F32)
    requires
        p.finite(),
        q.finite(),
        near_unit(s, c),
        turned_first(p, q, s, c).finite(),
        turned_second(p, q, s, c).finite(),
        turned_first(turned_first(p, q, s, c), turned_second(p, q, s, c), s.neg_spec(), c).finite(),
        turned_second(turned_first(p, q, s, c), turned_second(p, q, s, c), s.neg_spec(), c).finite(),
    ensures
        back_within(
            turned_first(turned_first(p, q, s, c), turned_second(p, q, s, c), s.neg_spec(), c),
            p,
            q,
        ),
        back_within(
            turned_second(turned_first(p, q, s, c), turned_second(p, q, s, c), s.neg_spec(), c),
            q,
            p,
        ),
{
    lemma_plane_turn_back_from_near(p, q, s, c, turned_first(p, q, s, c), turned_second(p, q, s, c));
}

/// Two turns of one pair by nearly the same angle, in whole numbers: `r` and `r2` are the
/// sums or differences of the products of `p` and `q` with the factors `c`, `s` and with
/// `c2`, `s2`, which lie `d` at most from those; the products and the sums err as in
/// `lemma_half_turn`. Then `r2` is within `d` and `4 * 2^-24` of the sizes of `p` and `q`
/// together, and `4 h`, of `r`, the whole counted times `k`.
proof fn lemma_half_turn_is_steady(
    k: int,
    h: int,
    p: int,
    q: int,
    c: int,
    s: int,
    c2: int,
    s2: int,
    d: int,
    a: int,
    b: int,
    r: int,
    a2: int,
    b2: int,
    r2: int,
    plus: bool,
)
    requires
        k > 0,
        h >= 0,
        size(c) <= k && size(s) <= k && size(c2) <= k && size(s2) <= k,
        size(c2 - c) <= d,
        size(s2 - s) <= d,
        0x100_0000 * size(a * k - p * c) <= size(p * c) + h,
        0x100_0000 * size(b * k - q * s) <= size(q * s) + h,
        0x100_0000 * size(a2 * k - p * c2) <= size(p * c2) + h,
        0x100_0000 * size(b2 * k - q * s2) <= size(q * s2) + h,
        size(a) <= size(p) && size(a2) <= size(p),
        size(b) <= size(q) && size(b2) <= size(q),
        plus ==> 0x100_0000 * size(r - (a + b)) <= size(a + b) && 0x100_0000 * size(r2 - (a2 + b2)) <= size(a2 + b2),
        !plus ==> 0x100_0000 * size(r - (a - b)) <= size(a - b) && 0x100_0000 * size(r2 - (a2 - b2)) <= size(
            a2 - b2,
        ),
    ensures
        0x100_0000 * (size(r2 - r) * k) <= 0x100_0000 * (d * (size(p) + size(q))) + 4 * ((size(p) + size(q)) * k) + 4
            * h,
{
    let m = size(p) + size(q);
    let pc = p * c;
    let qs = q * s;
    let pc2 = p * c2;
    let qs2 = q * s2;
    lemma_size_of_product(p, c, size(p), k);
    lemma_size_of_product(q, s, size(q), k);
    lemma_size_of_product(p, c2, size(p), k);
    lemma_size_of_product(q, s2, size(q), k);
    lemma_half_turn(k, 0x100_0000, h, pc, qs, size(p), size(q), a, b, r, plus);
    lemma_half_turn(k, 0x100_0000, h, pc2, qs2, size(p), size(q), a2, b2, r2, plus);
    // the exact products move with the factors
    lemma_size_of_product(p, c2 - c, size(p), d);
    lemma_size_of_product(q, s2 - s, size(q), d);
    assert(pc2 - pc == p * (c2 - c) && qs2 - qs == q * (s2 - s)) by (nonlinear_arith)
        requires
            pc == p * c,
            qs == q * s,
            pc2 == p * c2,
            qs2 == q * s2,
    ;
    let dm = d * m;
    assert(size(p) * d + size(q) * d == dm) by (nonlinear_arith)
        requires
            dm == d * (size(p) + size(q)),
    ;
    let mk = m * k;
    let rk = r * k;
    let r2k = r2 * k;
    let goal = if plus {
        pc + qs
    } else {
        pc - qs
    };
    let goal2 = if plus {
        pc2 + qs2
    } else {
        pc2 - qs2
    };
    assert(size(goal2 - goal) <= dm);
    let diff = r2 - r;
    lemma_scaled_error(1, diff, k, size(diff));
    assert(diff * k == r2k - rk) by (nonlinear_arith)
        requires
            diff == r2 - r,
            rk == r * k,
            r2k == r2 * k,
    ;
    assert(size(r2k - rk) <= size(r2k - goal2) + size(goal2 - goal) + size(rk - goal));
}

/// Whether `x` is within `d` units of `2^-149` for each unit of the sizes of `p` and `q`
/// together, `4 * 2^-24` of these sizes, and a few units, of `y`: the sizes are counted
/// times `2^149`.
pub open spec fn steady_within(x: F32, y: F32, p: F32, q: F32, d: int) -> bool {
    0x100_0000 * (size(whole(x) - whole(y)) * pow2(149)) <= 0x100_0000 * (d * (size(whole(p)) + size(whole(q)))) + 4
        * ((size(whole(p)) + size(whole(q))) * pow2(149)) + 4 * pow2(172)
}

/// A turn is steady in its angle: two finite numbers turned in their plane by two
/// angles, whose sines and cosines all lie from -1 to 1 and lie `d` units of `2^-149` at
/// most from each other, give numbers that are apart by no more than `d * 2^-149` and
/// `4 * 2^-24` of the sizes of the two together, and a few units. The turned numbers are
/// finite.
pub proof fn lemma_plane_turn_is_steady(p: F32, q: F32, s: F32, c: F32, s2: F32, c2: F32, d: int)
    requires
        p.finite(),
        q.finite(),
        s.magnitude() <= 0x3f80_0000 && c.magnitude() <= 0x3f80_0000,
        s2.magnitude() <= 0x3f80_0000 && c2.magnitude() <= 0x3f80_0000,
        size(whole(s2) - whole(s)) <= d,
        size(whole(c2) - whole(c)) <= d,
        turned_first(p, q, s, c).finite(),
        turned_second(p, q, s, c).finite(),
        turned_first(p, q, s2, c2).finite(),
        turned_second(p, q, s2, c2).finite(),
    ensures
        steady_within(turned_first(p, q, s2, c2), turned_first(p, q, s, c), p, q, d),
        steady_within(turned_second(p, q, s2, c2), turned_second(p, q, s, c), p, q, d),
{
    let one = F32 { bits: 0x3f80_0000 };
    let k = pow2(149) as int;
    let h = pow2(172) as int;
    lemma2_to64();
    lemma_pow2_pos(149);
    lemma_pow2_pos(172);
    lemma_pow2_adds(23, 126);
    assert(one.significand() == 0x80_0000 && one.exponent() == -23);
    lemma_whole(one);
    lemma_sizes_order(s, one);
    lemma_sizes_order(c, one);
    lemma_sizes_order(s2, one);
    lemma_sizes_order(c2, one);
    lemma_product_does_not_grow(p, c);
    lemma_product_does_not_grow(q, s);
    lemma_product_does_not_grow(p, s);
    lemma_product_does_not_grow(q, c);
    lemma_product_does_not_grow(p, c2);
    lemma_product_does_not_grow(q, s2);
    lemma_product_does_not_grow(p, s2);
    lemma_product_does_not_grow(q, c2);
    lemma_product_error(p, c);
    lemma_product_error(q, s);
    lemma_product_error(p, s);
    lemma_product_error(q, c);
    lemma_product_error(p, c2);
    lemma_product_error(q, s2);
    lemma_product_error(p, s2);
    lemma_product_error(q, c2);
    lemma_whole(q.mul_spec(s));
    lemma_whole(q.mul_spec(s2));
    lemma_sum_error(p.mul_spec(c), q.mul_spec(s).neg_spec());
    lemma_sum_error(p.mul_spec(c2), q.mul_spec(s2).neg_spec());
    lemma_sum_error(p.mul_spec(s), q.mul_spec(c));
    lemma_sum_error(p.mul_spec(s2), q.mul_spec(c2));
    lemma_half_turn_is_steady(
        k,
        h,
        whole(p),
        whole(q),
        whole(c),
        whole(s),
        whole(c2),
        whole(s2),
        d,
        whole(p.mul_spec(c)),
        whole(q.mul_spec(s)),
        whole(turned_first(p, q, s, c)),
        whole(p.mul_spec(c2)),
        whole(q.mul_spec(s2)),
        whole(turned_first(p, q, s2, c2)),
        false,
    );
    lemma_half_turn_is_steady(
        k,
        h,
        whole(p),
        whole(q),
        whole(s),
        whole(c),
        whole(s2),
        whole(c2),
        d,
        whole(p.mul_spec(s)),
        whole(q.mul_spec(c)),
        whole(turned_second(p, q, s, c)),
        whole(p.mul_spec(s2)),
        whole(q.mul_spec(c2)),
        whole(turned_second(p, q, s2, c2)),
        true,
    );
}

/// The first number of a turned pair errs by little: times one, it is within `2 * 2^-24`
/// of the sizes of the two numbers together, and a unit, of the exact `p c - q s`. The
/// sine and the cosine, or any two factors in their place, lie from -1 to 1, and the
/// turned number is finite. Values are whole numbers of units of `2^-149`, in which one is
/// `2^149`.
pub proof fn lemma_turned_first_error(p: F32, q: F32, s: F32, c: F32)
    requires
        p.finite(),
        q.finite(),
        s.magnitude() <= 0x3f80_0000,
        c.magnitude() <= 0x3f80_0000,
        turned_first(p, q, s, c).finite(),
    ensures
        0x100_0000 * size(whole(turned_first(p, q, s, c)) * pow2(149) - (whole(p) * whole(c) - whole(q) * whole(s)))
            <= 2 * ((size(whole(p)) + size(whole(q))) * pow2(149)) + 2 * pow2(172),
{
    let one = F32 { bits: 0x3f80_0000 };
    let k = pow2(149) as int;
    let h = pow2(172) as int;
    lemma2_to64();
    lemma_pow2_pos(149);
    lemma_pow2_pos(172);
    lemma_pow2_adds(23, 126);
    assert(one.significand() == 0x80_0000 && one.exponent() == -23);
    lemma_whole(one);
    lemma_sizes_order(s, one);
    lemma_sizes_order(c, one);
    lemma_product_does_not_grow(p, c);
    lemma_product_does_not_grow(q, s);
    lemma_product_error(p, c);
    lemma_product_error(q, s);
    lemma_whole(q.mul_spec(s));
    lemma_sum_error(p.mul_spec(c), q.mul_spec(s).neg_spec());
    lemma_size_of_product(whole(p), whole(c), size(whole(p)), k);
    lemma_size_of_product(whole(q), whole(s), size(whole(q)), k);
    lemma_half_turn(
        k,
        0x100_0000,
        h,
        whole(p) * whole(c),
        whole(q) * whole(s),
        size(whole(p)),
        size(whole(q)),
        whole(p.mul_spec(c)),
        whole(q.mul_spec(s)),
        whole(turned_first(p, q, s, c)),
        false,
    );
}

/// The second number of a turned pair errs by little: times one, it is within
/// `2 * 2^-24` of the sizes of the two numbers together, and a unit, of the exact
/// `p s + q c`, under the same conditions.
pub proof fn lemma_turned_second_error(p: F32, q: F32, s: F32, c: F32)
    requires
        p.finite(),
        q.finite(),
        s.magnitude() <= 0x3f80_0000,
        c.magnitude() <= 0x3f80_0000,
        turned_second(p, q, s, c).finite(),
    ensures
        0x100_0000 * size(whole(turned_second(p, q, s, c)) * pow2(149) - (whole(p) * whole(s) + whole(q) * whole(c)))
            <= 2 * ((size(whole(p)) + size(whole(q))) * pow2(149)) + 2 * pow2(172),
{
    let one = F32 { bits: 0x3f80_0000 };
    let k = pow2(149) as int;
    let h = pow2(172) as int;
    lemma2_to64();
    lemma_pow2_pos(149);
    lemma_pow2_pos(172);
    lemma_pow2_adds(23, 126);
    assert(one.significand() == 0x80_0000 && one.exponent() == -23);
    lemma_whole(one);
    lemma_sizes_order(s, one);
    lemma_sizes_order(c, one);
    lemma_product_does_not_grow(p, s);
    lemma_product_does_not_grow(q, c);
    lemma_product_error(p, s);
    lemma_product_error(q, c);
    lemma_sum_error(p.mul_spec(s), q.mul_spec(c));
    lemma_size_of_product(whole(p), whole(s), size(whole(p)), k);
    lemma_size_of_product(whole(q), whole(c), size(whole(q)), k);
    lemma_half_turn(
        k,
        0x100_0000,
        h,
        whole(p) * whole(s),
        whole(q) * whole(c),
        size(whole(p)),
        size(whole(q)),
        whole(p.mul_spec(s)),
        whole(q.mul_spec(c)),
        whole(turned_second(p, q, s, c)),
        true,
    );
}

} // verus!
