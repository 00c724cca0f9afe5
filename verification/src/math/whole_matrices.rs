//! Matrices of small whole numbers: their products are exact, so that the product of
//! three does not depend on which two are multiplied first.

use crate::error_laws::{lemma_size_of_product, size};
use crate::math::mat::Mat4;
use crate::math::vec::Vec4;
use crate::whole_laws::{is_whole, lemma_same_whole_is_equal, lemma_whole_product, lemma_whole_sum};
use vstd::prelude::*;

verus! {

/// Whether a matrix holds the table `f` of whole numbers, entry `(i, j)` in row `i` and
/// column `j`, counted from 0, each at most `bound` in size.
pub open spec fn holds(m: Mat4, f: spec_fn(int, int) -> int, bound: int) -> bool {
    &&& is_whole(m.r1.x, f(0, 0)) && -bound <= f(0, 0) <= bound
    &&& is_whole(m.r1.y, f(0, 1)) && -bound <= f(0, 1) <= bound
    &&& is_whole(m.r1.z, f(0, 2)) && -bound <= f(0, 2) <= bound
    &&& is_whole(m.r1.w, f(0, 3)) && -bound <= f(0, 3) <= bound
    &&& is_whole(m.r2.x, f(1, 0)) && -bound <= f(1, 0) <= bound
    &&& is_whole(m.r2.y, f(1, 1)) && -bound <= f(1, 1) <= bound
    &&& is_whole(m.r2.z, f(1, 2)) && -bound <= f(1, 2) <= bound
    &&& is_whole(m.r2.w, f(1, 3)) && -bound <= f(1, 3) <= bound
    &&& is_whole(m.r3.x, f(2, 0)) && -bound <= f(2, 0) <= bound
    &&& is_whole(m.r3.y, f(2, 1)) && -bound <= f(2, 1) <= bound
    &&& is_whole(m.r3.z, f(2, 2)) && -bound <= f(2, 2) <= bound
    &&& is_whole(m.r3.w, f(2, 3)) && -bound <= f(2, 3) <= bound
    &&& is_whole(m.r4.x, f(3, 0)) && -bound <= f(3, 0) <= bound
    &&& is_whole(m.r4.y, f(3, 1)) && -bound <= f(3, 1) <= bound
    &&& is_whole(m.r4.z, f(3, 2)) && -bound <= f(3, 2) <= bound
    &&& is_whole(m.r4.w, f(3, 3)) && -bound <= f(3, 3) <= bound
}

/// The product of two tables of whole numbers: entry `(i, j)` is row `i` of the first
/// times column `j` of the second.
pub open spec fn times(f: spec_fn(int, int) -> int, g: spec_fn(int, int) -> int) -> spec_fn(int, int) -> int {
    |i: int, j: int| f(i, 0) * g(0, j) + f(i, 1) * g(1, j) + f(i, 2) * g(2, j) + f(i, 3) * g(3, j)
}

/// The dot product of two rows of whole numbers is the sum of the products of their
/// numbers, where four such products together stay below `2^24`.
pub proof fn lemma_whole_dot(
    r: Vec4,
    c: Vec4,
    r0: int,
    r1: int,
    r2: int,
    r3: int,
    c0: int,
    c1: int,
    c2: int,
    c3: int,
    ba: int,
    bb: int,
)
    requires
        is_whole(r.x, r0) && is_whole(r.y, r1) && is_whole(r.z, r2) && is_whole(r.w, r3),
        is_whole(c.x, c0) && is_whole(c.y, c1) && is_whole(c.z, c2) && is_whole(c.w, c3),
        size(r0) <= ba && size(r1) <= ba && size(r2) <= ba && size(r3) <= ba,
        size(c0) <= bb && size(c1) <= bb && size(c2) <= bb && size(c3) <= bb,
        4 * (ba * bb) < 0x100_0000,
    ensures
        is_whole(r.dot_spec(c), r0 * c0 + r1 * c1 + r2 * c2 + r3 * c3),
        size(r0 * c0 + r1 * c1 + r2 * c2 + r3 * c3) <= 4 * (ba * bb),
{
    lemma_size_of_product(r0, c0, ba, bb);
    lemma_size_of_product(r1, c1, ba, bb);
    lemma_size_of_product(r2, c2, ba, bb);
    lemma_size_of_product(r3, c3, ba, bb);
    lemma_whole_product(r.x, c.x, r0, c0);
    lemma_whole_product(r.y, c.y, r1, c1);
    lemma_whole_product(r.z, c.z, r2, c2);
    lemma_whole_product(r.w, c.w, r3, c3);
    lemma_whole_sum(r.x.mul_spec(c.x), r.y.mul_spec(c.y), r0 * c0, r1 * c1);
    lemma_whole_sum(r.x.mul_spec(c.x).add_spec(r.y.mul_spec(c.y)), r.z.mul_spec(c.z), r0 * c0 + r1 * c1, r2 * c2);
    lemma_whole_sum(
        r.x.mul_spec(c.x).add_spec(r.y.mul_spec(c.y)).add_spec(r.z.mul_spec(c.z)),
        r.w.mul_spec(c.w),
        r0 * c0 + r1 * c1 + r2 * c2,
        r3 * c3,
    );
}

/// The product of two matrices of whole numbers holds the product of their tables, where
/// four products of their entries together stay below `2^24`.
pub proof fn lemma_whole_matrix_product(
    a: Mat4,
    b: Mat4,
    f: spec_fn(int, int) -> int,
    g: spec_fn(int, int) -> int,
    ba: int,
    bb: int,
)
    requires
        holds(a, f, ba),
        holds(b, g, bb),
        4 * (ba * bb) < 0x100_0000,
    ensures
        holds(a.mult_mat4_spec(b), times(f, g), 4 * (ba * bb)),
{
    let t = b.transpose_spec();
    lemma_whole_dot(
        a.r1,
        t.r1,
        f(0, 0),
        f(0, 1),
        f(0, 2),
        f(0, 3),
        g(0, 0),
        g(1, 0),
        g(2, 0),
        g(3, 0),
        ba,
        bb,
    );
    lemma_whole_dot(
        a.r1,
        t.r2,
        f(0, 0),
        f(0, 1),
        f(0, 2),
        f(0, 3),
        g(0, 1),
        g(1, 1),
        g(2, 1),
        g(3, 1),
        ba,
        bb,
    );
    lemma_whole_dot(
        a.r1,
        t.r3,
        f(0, 0),
        f(0, 1),
        f(0, 2),
        f(0, 3),
        g(0, 2),
        g(1, 2),
        g(2, 2),
        g(3, 2),
        ba,
        bb,
    );
    lemma_whole_dot(
        a.r1,
        t.r4,
        f(0, 0),
        f(0, 1),
        f(0, 2),
        f(0, 3),
        g(0, 3),
        g(1, 3),
        g(2, 3),
        g(3, 3),
        ba,
        bb,
    );
    lemma_whole_dot(
        a.r2,
        t.r1,
        f(1, 0),
        f(1, 1),
        f(1, 2),
        f(1, 3),
        g(0, 0),
        g(1, 0),
        g(2, 0),
        g(3, 0),
        ba,
        bb,
    );
    lemma_whole_dot(
        a.r2,
        t.r2,
        f(1, 0),
        f(1, 1),
        f(1, 2),
        f(1, 3),
        g(0, 1),
        g(1, 1),
        g(2, 1),
        g(3, 1),
        ba,
        bb,
    );
    lemma_whole_dot(
        a.r2,
        t.r3,
        f(1, 0),
        f(1, 1),
        f(1, 2),
        f(1, 3),
        g(0, 2),
        g(1, 2),
        g(2, 2),
        g(3, 2),
        ba,
        bb,
    );
    lemma_whole_dot(
        a.r2,
        t.r4,
        f(1, 0),
        f(1, 1),
        f(1, 2),
        f(1, 3),
        g(0, 3),
        g(1, 3),
        g(2, 3),
        g(3, 3),
        ba,
        bb,
    );
    lemma_whole_dot(
        a.r3,
        t.r1,
        f(2, 0),
        f(2, 1),
        f(2, 2),
        f(2, 3),
        g(0, 0),
        g(1, 0),
        g(2, 0),
        g(3, 0),
        ba,
        bb,
    );
    lemma_whole_dot(
        a.r3,
        t.r2,
        f(2, 0),
        f(2, 1),
        f(2, 2),
        f(2, 3),
        g(0, 1),
        g(1, 1),
        g(2, 1),
        g(3, 1),
        ba,
        bb,
    );
    lemma_whole_dot(
        a.r3,
        t.r3,
        f(2, 0),
        f(2, 1),
        f(2, 2),
        f(2, 3),
        g(0, 2),
        g(1, 2),
        g(2, 2),
        g(3, 2),
        ba,
        bb,
    );
    lemma_whole_dot(
        a.r3,
        t.r4,
        f(2, 0),
        f(2, 1),
        f(2, 2),
        f(2, 3),
        g(0, 3),
        g(1, 3),
        g(2, 3),
        g(3, 3),
        ba,
        bb,
    );
    lemma_whole_dot(
        a.r4,
        t.r1,
        f(3, 0),
        f(3, 1),
        f(3, 2),
        f(3, 3),
        g(0, 0),
        g(1, 0),
        g(2, 0),
        g(3, 0),
        ba,
        bb,
    );
    lemma_whole_dot(
        a.r4,
        t.r2,
        f(3, 0),
        f(3, 1),
        f(3, 2),
        f(3, 3),
        g(0, 1),
        g(1, 1),
        g(2, 1),
        g(3, 1),
        ba,
        bb,
    );
    lemma_whole_dot(
        a.r4,
        t.r3,
        f(3, 0),
        f(3, 1),
        f(3, 2),
        f(3, 3),
        g(0, 2),
        g(1, 2),
        g(2, 2),
        g(3, 2),
        ba,
        bb,
    );
    lemma_whole_dot(
        a.r4,
        t.r4,
        f(3, 0),
        f(3, 1),
        f(3, 2),
        f(3, 3),
        g(0, 3),
        g(1, 3),
        g(2, 3),
        g(3, 3),
        ba,
        bb,
    );
}

/// The product of three tables of whole numbers does not depend on which two are
/// multiplied first.
pub proof fn lemma_times_associates(
    f: spec_fn(int, int) -> int,
    g: spec_fn(int, int) -> int,
    h: spec_fn(int, int) -> int,
    i: int,
    j: int,
)
    ensures
        times(times(f, g), h)(i, j) == times(f, times(g, h))(i, j),
{
    let a0 = f(i, 0);
    let a1 = f(i, 1);
    let a2 = f(i, 2);
    let a3 = f(i, 3);
    let c0 = h(0, j);
    let c1 = h(1, j);
    let c2 = h(2, j);
    let c3 = h(3, j);
    lemma_row_through(a0, a1, a2, a3, g(0, 0), g(1, 0), g(2, 0), g(3, 0), c0);
    lemma_row_through(a0, a1, a2, a3, g(0, 1), g(1, 1), g(2, 1), g(3, 1), c1);
    lemma_row_through(a0, a1, a2, a3, g(0, 2), g(1, 2), g(2, 2), g(3, 2), c2);
    lemma_row_through(a0, a1, a2, a3, g(0, 3), g(1, 3), g(2, 3), g(3, 3), c3);
    lemma_column_through(a0, g(0, 0), g(0, 1), g(0, 2), g(0, 3), c0, c1, c2, c3);
    lemma_column_through(a1, g(1, 0), g(1, 1), g(1, 2), g(1, 3), c0, c1, c2, c3);
    lemma_column_through(a2, g(2, 0), g(2, 1), g(2, 2), g(2, 3), c0, c1, c2, c3);
    lemma_column_through(a3, g(3, 0), g(3, 1), g(3, 2), g(3, 3), c0, c1, c2, c3);
}

/// A sum of four products, times a number, is the sum of the four products each times
/// the number.
proof fn lemma_row_through(a0: int, a1: int, a2: int, a3: int, b0: int, b1: int, b2: int, b3: int, c: int)
    ensures
        (a0 * b0 + a1 * b1 + a2 * b2 + a3 * b3) * c == a0 * (b0 * c) + a1 * (b1 * c) + a2 * (b2 * c) + a3 * (b3
            * c),
{
    assert((a0 * b0) * c == a0 * (b0 * c)) by (nonlinear_arith);
    assert((a1 * b1) * c == a1 * (b1 * c)) by (nonlinear_arith);
    assert((a2 * b2) * c == a2 * (b2 * c)) by (nonlinear_arith);
    assert((a3 * b3) * c == a3 * (b3 * c)) by (nonlinear_arith);
    let p0 = a0 * b0;
    let p1 = a1 * b1;
    let p2 = a2 * b2;
    let p3 = a3 * b3;
    assert((p0 + p1 + p2 + p3) * c == p0 * c + p1 * c + p2 * c + p3 * c) by (nonlinear_arith);
}

/// A number times a sum of four products is the sum of the number times each product.
proof fn lemma_column_through(a: int, b0: int, b1: int, b2: int, b3: int, c0: int, c1: int, c2: int, c3: int)
    ensures
        a * (b0 * c0 + b1 * c1 + b2 * c2 + b3 * c3) == a * (b0 * c0) + a * (b1 * c1) + a * (b2 * c2) + a * (b3
            * c3),
{
    let p0 = b0 * c0;
    let p1 = b1 * c1;
    let p2 = b2 * c2;
    let p3 = b3 * c3;
    assert(a * (p0 + p1 + p2 + p3) == a * p0 + a * p1 + a * p2 + a * p3) by (nonlinear_arith);
}

/// Products of matrices of whole numbers associate: where three matrices hold whole
/// numbers from -100 to 100, the product of the first two times the third equals the
/// first times the product of the other two, entry by entry. Every number on the way is
/// a whole number below `2^24` in size, which binary32 holds exactly.
pub proof fn lemma_whole_matrices_associate(
    a: Mat4,
    b: Mat4,
    c: Mat4,
    f: spec_fn(int, int) -> int,
    g: spec_fn(int, int) -> int,
    h: spec_fn(int, int) -> int,
)
    requires
        holds(a, f, 100),
        holds(b, g, 100),
        holds(c, h, 100),
    ensures
        a.mult_mat4_spec(b).mult_mat4_spec(c).equal(a.mult_mat4_spec(b.mult_mat4_spec(c))),
        holds(a.mult_mat4_spec(b).mult_mat4_spec(c), times(times(f, g), h), 16_000_000),
{
    lemma_whole_matrix_product(a, b, f, g, 100, 100);
    lemma_whole_matrix_product(b, c, g, h, 100, 100);
    lemma_whole_matrix_product(a.mult_mat4_spec(b), c, times(f, g), h, 40_000, 100);
    lemma_whole_matrix_product(a, b.mult_mat4_spec(c), f, times(g, h), 100, 40_000);
    let left = a.mult_mat4_spec(b).mult_mat4_spec(c);
    let right = a.mult_mat4_spec(b.mult_mat4_spec(c));
    lemma_times_associates(f, g, h, 0, 0);
    lemma_times_associates(f, g, h, 0, 1);
    lemma_times_associates(f, g, h, 0, 2);
    lemma_times_associates(f, g, h, 0, 3);
    lemma_times_associates(f, g, h, 1, 0);
    lemma_times_associates(f, g, h, 1, 1);
    lemma_times_associates(f, g, h, 1, 2);
    lemma_times_associates(f, g, h, 1, 3);
    lemma_times_associates(f, g, h, 2, 0);
    lemma_times_associates(f, g, h, 2, 1);
    lemma_times_associates(f, g, h, 2, 2);
    lemma_times_associates(f, g, h, 2, 3);
    lemma_times_associates(f, g, h, 3, 0);
    lemma_times_associates(f, g, h, 3, 1);
    lemma_times_associates(f, g, h, 3, 2);
    lemma_times_associates(f, g, h, 3, 3);
    lemma_same_whole_is_equal(left.r1.x, right.r1.x);
    lemma_same_whole_is_equal(left.r1.y, right.r1.y);
    lemma_same_whole_is_equal(left.r1.z, right.r1.z);
    lemma_same_whole_is_equal(left.r1.w, right.r1.w);
    lemma_same_whole_is_equal(left.r2.x, right.r2.x);
    lemma_same_whole_is_equal(left.r2.y, right.r2.y);
    lemma_same_whole_is_equal(left.r2.z, right.r2.z);
    lemma_same_whole_is_equal(left.r2.w, right.r2.w);
    lemma_same_whole_is_equal(left.r3.x, right.r3.x);
    lemma_same_whole_is_equal(left.r3.y, right.r3.y);
    lemma_same_whole_is_equal(left.r3.z, right.r3.z);
    lemma_same_whole_is_equal(left.r3.w, right.r3.w);
    lemma_same_whole_is_equal(left.r4.x, right.r4.x);
    lemma_same_whole_is_equal(left.r4.y, right.r4.y);
    lemma_same_whole_is_equal(left.r4.z, right.r4.z);
    lemma_same_whole_is_equal(left.r4.w, right.r4.w);
}

} // verus!
