//! Strassen's scheme: seven half-size products, recombined into the four
//! quadrants of the result.
use vstd::prelude::*;

use super::model::{
    block,
    congruent,
    dot,
    is_shape,
    lemma_cong_add,
    lemma_cong_mul,
    lemma_cong_refl,
    lemma_cong_sub,
    lemma_cong_trans,
    lemma_sum_add,
    lemma_sum_cong,
    lemma_sum_ext,
    lemma_sum_split,
    mat_add,
    mat_mul,
    mat_sub,
    sum,
};
use super::mat::{lemma_flat_index, lemma_view_of_flat, Matrix};
use super::mul::{
    can_multiply,
    is_product_of,
    multiply_scalar,
    multiply_simd,
    MUL_SIMD_MIN_INNER,
    MUL_SIMD_THRESHOLD,
    STRASSEN_CUTOVER,
};
use super::parallel::join;
use super::simd::SimdOps;

verus! {

/// Every entry of the `h` by `h` matrix `x` is congruent to `f` at its position.
pub open spec fn congruent_to<T: SimdOps>(x: Seq<Seq<T>>, f: spec_fn(int, int) -> int, h: nat) -> bool {
    &&& is_shape(x, h, h)
    &&& forall|i: int, j: int|
        0 <= i < h && 0 <= j < h ==> congruent(#[trigger] x[i][j].val(), f(i, j), T::modulus())
}

/// The integers of the `h` by `h` block of `a` at `(r0, c0)`.
pub open spec fn block_ints<T: SimdOps>(a: Seq<Seq<T>>, r0: int, c0: int) -> spec_fn(int, int) -> int {
    |i: int, j: int| a[r0 + i][c0 + j].val()
}

/// Position by position sum of two integer matrices.
pub open spec fn plus_ints(f: spec_fn(int, int) -> int, g: spec_fn(int, int) -> int) -> spec_fn(int, int) -> int {
    |i: int, j: int| f(i, j) + g(i, j)
}

/// Position by position difference of two integer matrices.
pub open spec fn minus_ints(f: spec_fn(int, int) -> int, g: spec_fn(int, int) -> int) -> spec_fn(int, int) -> int {
    |i: int, j: int| f(i, j) - g(i, j)
}

proof fn lemma_block_congruent<T: SimdOps>(a: Seq<Seq<T>>, n: nat, r0: int, c0: int, h: nat)
    requires
        is_shape(a, n, n),
        0 <= r0,
        0 <= c0,
        r0 + h <= n,
        c0 + h <= n,
    ensures
        congruent_to(block(a, r0, c0, h, h), block_ints(a, r0, c0), h),
{
    T::lemma_modulus();
    let x = block(a, r0, c0, h, h);
    assert forall|i: int, j: int| 0 <= i < h && 0 <= j < h implies congruent(
        #[trigger] x[i][j].val(),
        block_ints(a, r0, c0)(i, j),
        T::modulus(),
    ) by {
        lemma_cong_refl(x[i][j].val(), T::modulus());
    }
}

proof fn lemma_add_congruent<T: SimdOps>(
    x: Seq<Seq<T>>,
    y: Seq<Seq<T>>,
    f: spec_fn(int, int) -> int,
    g: spec_fn(int, int) -> int,
    h: nat,
)
    requires
        congruent_to(x, f, h),
        congruent_to(y, g, h),
    ensures
        congruent_to(mat_add(x, y), plus_ints(f, g), h),
{
    T::lemma_modulus();
    let z = mat_add(x, y);
    assert forall|i: int, j: int| 0 <= i < h && 0 <= j < h implies congruent(
        #[trigger] z[i][j].val(),
        plus_ints(f, g)(i, j),
        T::modulus(),
    ) by {
        T::lemma_wrap(x[i][j].val() + y[i][j].val());
        lemma_cong_add(x[i][j].val(), f(i, j), y[i][j].val(), g(i, j), T::modulus());
        lemma_cong_trans(z[i][j].val(), x[i][j].val() + y[i][j].val(), f(i, j) + g(i, j), T::modulus());
    }
}

proof fn lemma_sub_congruent<T: SimdOps>(
    x: Seq<Seq<T>>,
    y: Seq<Seq<T>>,
    f: spec_fn(int, int) -> int,
    g: spec_fn(int, int) -> int,
    h: nat,
)
    requires
        congruent_to(x, f, h),
        congruent_to(y, g, h),
    ensures
        congruent_to(mat_sub(x, y), minus_ints(f, g), h),
{
    T::lemma_modulus();
    let z = mat_sub(x, y);
    assert forall|i: int, j: int| 0 <= i < h && 0 <= j < h implies congruent(
        #[trigger] z[i][j].val(),
        minus_ints(f, g)(i, j),
        T::modulus(),
    ) by {
        T::lemma_wrap(x[i][j].val() - y[i][j].val());
        lemma_cong_sub(x[i][j].val(), f(i, j), y[i][j].val(), g(i, j), T::modulus());
        lemma_cong_trans(z[i][j].val(), x[i][j].val() - y[i][j].val(), f(i, j) - g(i, j), T::modulus());
    }
}

/// The integer product of two `h` by `h` integer matrices, at `(i, j)`.
pub open spec fn int_product(f: spec_fn(int, int) -> int, g: spec_fn(int, int) -> int, h: nat) -> spec_fn(int, int) -> int {
    |i: int, j: int| sum(|p: int| f(i, p) * g(p, j), h)
}

proof fn lemma_mul_congruent<T: SimdOps>(
    x: Seq<Seq<T>>,
    y: Seq<Seq<T>>,
    f: spec_fn(int, int) -> int,
    g: spec_fn(int, int) -> int,
    h: nat,
)
    requires
        congruent_to(x, f, h),
        congruent_to(y, g, h),
    ensures
        congruent_to(mat_mul(x, y, h), int_product(f, g, h), h),
{
    T::lemma_modulus();
    let m = T::modulus();
    let z = mat_mul(x, y, h);
    assert forall|i: int, j: int| 0 <= i < h && 0 <= j < h implies congruent(
        #[trigger] z[i][j].val(),
        int_product(f, g, h)(i, j),
        m,
    ) by {
        let d = dot(x, y, i, j);
        T::lemma_wrap(d);
        let u = |p: int| x[i][p].val() * y[p][j].val();
        let v = |p: int| f(i, p) * g(p, j);
        assert forall|p: int| 0 <= p < h implies congruent(#[trigger] u(p), v(p), m) by {
            lemma_cong_mul(x[i][p].val(), f(i, p), y[p][j].val(), g(p, j), m);
        }
        lemma_sum_cong(u, v, h, m);
        lemma_cong_trans(z[i][j].val(), d, sum(v, h), m);
    }
}

/// The integers of quadrant `(r, c)` of a matrix split into `h` by `h` quadrants.
pub open spec fn quad<T: SimdOps>(a: Seq<Seq<T>>, h: nat, r: int, c: int) -> spec_fn(int, int) -> int {
    block_ints(a, r * h, c * h)
}

pub open spec fn p1_ints<T: SimdOps>(a: Seq<Seq<T>>, b: Seq<Seq<T>>, h: nat) -> spec_fn(int, int) -> int {
    int_product(quad(a, h, 0, 0), minus_ints(quad(b, h, 0, 1), quad(b, h, 1, 1)), h)
}

pub open spec fn p2_ints<T: SimdOps>(a: Seq<Seq<T>>, b: Seq<Seq<T>>, h: nat) -> spec_fn(int, int) -> int {
    int_product(plus_ints(quad(a, h, 0, 0), quad(a, h, 0, 1)), quad(b, h, 1, 1), h)
}

pub open spec fn p3_ints<T: SimdOps>(a: Seq<Seq<T>>, b: Seq<Seq<T>>, h: nat) -> spec_fn(int, int) -> int {
    int_product(plus_ints(quad(a, h, 1, 0), quad(a, h, 1, 1)), quad(b, h, 0, 0), h)
}

pub open spec fn p4_ints<T: SimdOps>(a: Seq<Seq<T>>, b: Seq<Seq<T>>, h: nat) -> spec_fn(int, int) -> int {
    int_product(quad(a, h, 1, 1), minus_ints(quad(b, h, 1, 0), quad(b, h, 0, 0)), h)
}

pub open spec fn p5_ints<T: SimdOps>(a: Seq<Seq<T>>, b: Seq<Seq<T>>, h: nat) -> spec_fn(int, int) -> int {
    int_product(
        plus_ints(quad(a, h, 0, 0), quad(a, h, 1, 1)),
        plus_ints(quad(b, h, 0, 0), quad(b, h, 1, 1)),
        h,
    )
}

pub open spec fn p6_ints<T: SimdOps>(a: Seq<Seq<T>>, b: Seq<Seq<T>>, h: nat) -> spec_fn(int, int) -> int {
    int_product(
        minus_ints(quad(a, h, 0, 1), quad(a, h, 1, 1)),
        plus_ints(quad(b, h, 1, 0), quad(b, h, 1, 1)),
        h,
    )
}

pub open spec fn p7_ints<T: SimdOps>(a: Seq<Seq<T>>, b: Seq<Seq<T>>, h: nat) -> spec_fn(int, int) -> int {
    int_product(
        minus_ints(quad(a, h, 0, 0), quad(a, h, 1, 0)),
        plus_ints(quad(b, h, 0, 0), quad(b, h, 0, 1)),
        h,
    )
}

/// Entry `(r * h + i, c * h + j)` of a product of `2h` by `2h` matrices,
/// split at the middle of the inner dimension.
proof fn lemma_dot_split<T: SimdOps>(a: Seq<Seq<T>>, b: Seq<Seq<T>>, h: nat, r: int, c: int, i: int, j: int)
    requires
        b.len() == 2 * h,
    ensures
        dot(a, b, r * h + i, c * h + j) == sum(
            |p: int| quad(a, h, r, 0)(i, p) * quad(b, h, 0, c)(p, j),
            h,
        ) + sum(|p: int| quad(a, h, r, 1)(i, p) * quad(b, h, 1, c)(p, j), h),
{
    let f = |p: int| a[r * h + i][p].val() * b[p][c * h + j].val();
    lemma_sum_split(f, h, h);
    lemma_sum_ext(f, |p: int| quad(a, h, r, 0)(i, p) * quad(b, h, 0, c)(p, j), h);
    lemma_sum_ext(
        |p: int| f(h + p),
        |p: int| quad(a, h, r, 1)(i, p) * quad(b, h, 1, c)(p, j),
        h,
    );
}

proof fn lemma_sum_combo_pmp(f1: spec_fn(int) -> int, f2: spec_fn(int) -> int, f3: spec_fn(int) -> int, f4: spec_fn(int) -> int, n: nat)
    ensures
        sum(f1, n) + sum(f2, n) - sum(f3, n) + sum(f4, n) == sum(
            |p: int| f1(p) + f2(p) - f3(p) + f4(p),
            n,
        ),
    decreases n,
{
    if n > 0 {
        lemma_sum_combo_pmp(f1, f2, f3, f4, (n - 1) as nat);
    }
}

proof fn lemma_sum_combo_pmm(f1: spec_fn(int) -> int, f2: spec_fn(int) -> int, f3: spec_fn(int) -> int, f4: spec_fn(int) -> int, n: nat)
    ensures
        sum(f1, n) + sum(f2, n) - sum(f3, n) - sum(f4, n) == sum(
            |p: int| f1(p) + f2(p) - f3(p) - f4(p),
            n,
        ),
    decreases n,
{
    if n > 0 {
        lemma_sum_combo_pmm(f1, f2, f3, f4, (n - 1) as nat);
    }
}

proof fn lemma_identity_00(x11: int, x12: int, x22: int, y11: int, y21: int, y22: int)
    ensures
        (x11 + x22) * (y11 + y22) + x22 * (y21 - y11) - (x11 + x12) * y22 + (x12 - x22) * (y21
            + y22) == x11 * y11 + x12 * y21,
{
    assert((x11 + x22) * (y11 + y22) == x11 * y11 + x11 * y22 + x22 * y11 + x22 * y22)
        by (nonlinear_arith);
    assert(x22 * (y21 - y11) == x22 * y21 - x22 * y11) by (nonlinear_arith);
    assert((x11 + x12) * y22 == x11 * y22 + x12 * y22) by (nonlinear_arith);
    assert((x12 - x22) * (y21 + y22) == x12 * y21 + x12 * y22 - x22 * y21 - x22 * y22)
        by (nonlinear_arith);
}

proof fn lemma_identity_01(x11: int, x12: int, y12: int, y22: int)
    ensures
        x11 * (y12 - y22) + (x11 + x12) * y22 == x11 * y12 + x12 * y22,
{
    assert(x11 * (y12 - y22) == x11 * y12 - x11 * y22) by (nonlinear_arith);
    assert((x11 + x12) * y22 == x11 * y22 + x12 * y22) by (nonlinear_arith);
}

proof fn lemma_identity_10(x21: int, x22: int, y11: int, y21: int)
    ensures
        (x21 + x22) * y11 + x22 * (y21 - y11) == x21 * y11 + x22 * y21,
{
    assert((x21 + x22) * y11 == x21 * y11 + x22 * y11) by (nonlinear_arith);
    assert(x22 * (y21 - y11) == x22 * y21 - x22 * y11) by (nonlinear_arith);
}

proof fn lemma_identity_11(x11: int, x21: int, x22: int, y11: int, y12: int, y22: int)
    ensures
        (x11 + x22) * (y11 + y22) + x11 * (y12 - y22) - (x21 + x22) * y11 - (x11 - x21) * (y11
            + y12) == x21 * y12 + x22 * y22,
{
    assert((x11 + x22) * (y11 + y22) == x11 * y11 + x11 * y22 + x22 * y11 + x22 * y22)
        by (nonlinear_arith);
    assert(x11 * (y12 - y22) == x11 * y12 - x11 * y22) by (nonlinear_arith);
    assert((x21 + x22) * y11 == x21 * y11 + x22 * y11) by (nonlinear_arith);
    assert((x11 - x21) * (y11 + y12) == x11 * y11 + x11 * y12 - x21 * y11 - x21 * y12)
        by (nonlinear_arith);
}

/// Quadrant `(0, 0)`: `P5 + P4 - P2 + P6`.
proof fn lemma_quadrant_00<T: SimdOps>(a: Seq<Seq<T>>, b: Seq<Seq<T>>, h: nat, i: int, j: int)
    requires
        b.len() == 2 * h,
    ensures
        p5_ints(a, b, h)(i, j) + p4_ints(a, b, h)(i, j) - p2_ints(a, b, h)(i, j) + p6_ints(a, b, h)(
            i,
            j,
        ) == dot(a, b, i, j),
{
    let a11 = quad(a, h, 0, 0);
    let a12 = quad(a, h, 0, 1);
    let a21 = quad(a, h, 1, 0);
    let a22 = quad(a, h, 1, 1);
    let b11 = quad(b, h, 0, 0);
    let b12 = quad(b, h, 0, 1);
    let b21 = quad(b, h, 1, 0);
    let b22 = quad(b, h, 1, 1);
    let s5 = |p: int| plus_ints(a11, a22)(i, p) * plus_ints(b11, b22)(p, j);
    let s4 = |p: int| a22(i, p) * minus_ints(b21, b11)(p, j);
    let s2 = |p: int| plus_ints(a11, a12)(i, p) * b22(p, j);
    let s6 = |p: int| minus_ints(a12, a22)(i, p) * plus_ints(b21, b22)(p, j);
    let u = |p: int| a11(i, p) * b11(p, j);
    let v = |p: int| a12(i, p) * b21(p, j);
    let lhs = |p: int| s5(p) + s4(p) - s2(p) + s6(p);
    let rhs = |p: int| u(p) + v(p);
    lemma_sum_combo_pmp(s5, s4, s2, s6, h);
    assert forall|p: int| 0 <= p < h implies #[trigger] lhs(p) == rhs(p) by {
        let x11 = a11(i, p);
        let x12 = a12(i, p);
        let x22 = a22(i, p);
        let y11 = b11(p, j);
        let y21 = b21(p, j);
        let y22 = b22(p, j);
        lemma_identity_00(x11, x12, x22, y11, y21, y22);
    }
    lemma_sum_ext(lhs, rhs, h);
    lemma_sum_add(u, v, h);
    lemma_dot_split(a, b, h, 0, 0, i, j);
}

/// Quadrant `(0, 1)`: `P1 + P2`.
proof fn lemma_quadrant_01<T: SimdOps>(a: Seq<Seq<T>>, b: Seq<Seq<T>>, h: nat, i: int, j: int)
    requires
        b.len() == 2 * h,
    ensures
        p1_ints(a, b, h)(i, j) + p2_ints(a, b, h)(i, j) == dot(a, b, i, h + j),
{
    let a11 = quad(a, h, 0, 0);
    let a12 = quad(a, h, 0, 1);
    let a21 = quad(a, h, 1, 0);
    let a22 = quad(a, h, 1, 1);
    let b11 = quad(b, h, 0, 0);
    let b12 = quad(b, h, 0, 1);
    let b21 = quad(b, h, 1, 0);
    let b22 = quad(b, h, 1, 1);
    let s1 = |p: int| a11(i, p) * minus_ints(b12, b22)(p, j);
    let s2 = |p: int| plus_ints(a11, a12)(i, p) * b22(p, j);
    let u = |p: int| a11(i, p) * b12(p, j);
    let v = |p: int| a12(i, p) * b22(p, j);
    let lhs = |p: int| s1(p) + s2(p);
    let rhs = |p: int| u(p) + v(p);
    lemma_sum_add(s1, s2, h);
    assert forall|p: int| 0 <= p < h implies #[trigger] lhs(p) == rhs(p) by {
        let x11 = a11(i, p);
        let x12 = a12(i, p);
        let x21 = a21(i, p);
        let x22 = a22(i, p);
        let y11 = b11(p, j);
        let y12 = b12(p, j);
        let y21 = b21(p, j);
        let y22 = b22(p, j);
        lemma_identity_01(x11, x12, y12, y22);
    }
    lemma_sum_ext(lhs, rhs, h);
    lemma_sum_add(u, v, h);
    lemma_dot_split(a, b, h, 0, 1, i, j);
}

/// Quadrant `(1, 0)`: `P3 + P4`.
proof fn lemma_quadrant_10<T: SimdOps>(a: Seq<Seq<T>>, b: Seq<Seq<T>>, h: nat, i: int, j: int)
    requires
        b.len() == 2 * h,
    ensures
        p3_ints(a, b, h)(i, j) + p4_ints(a, b, h)(i, j) == dot(a, b, h + i, j),
{
    let a11 = quad(a, h, 0, 0);
    let a12 = quad(a, h, 0, 1);
    let a21 = quad(a, h, 1, 0);
    let a22 = quad(a, h, 1, 1);
    let b11 = quad(b, h, 0, 0);
    let b12 = quad(b, h, 0, 1);
    let b21 = quad(b, h, 1, 0);
    let b22 = quad(b, h, 1, 1);
    let s3 = |p: int| plus_ints(a21, a22)(i, p) * b11(p, j);
    let s4 = |p: int| a22(i, p) * minus_ints(b21, b11)(p, j);
    let u = |p: int| a21(i, p) * b11(p, j);
    let v = |p: int| a22(i, p) * b21(p, j);
    let lhs = |p: int| s3(p) + s4(p);
    let rhs = |p: int| u(p) + v(p);
    lemma_sum_add(s3, s4, h);
    assert forall|p: int| 0 <= p < h implies #[trigger] lhs(p) == rhs(p) by {
        let x11 = a11(i, p);
        let x12 = a12(i, p);
        let x21 = a21(i, p);
        let x22 = a22(i, p);
        let y11 = b11(p, j);
        let y12 = b12(p, j);
        let y21 = b21(p, j);
        let y22 = b22(p, j);
        lemma_identity_10(x21, x22, y11, y21);
    }
    lemma_sum_ext(lhs, rhs, h);
    lemma_sum_add(u, v, h);
    lemma_dot_split(a, b, h, 1, 0, i, j);
}

/// Quadrant `(1, 1)`: `P5 + P1 - P3 - P7`.
proof fn lemma_quadrant_11<T: SimdOps>(a: Seq<Seq<T>>, b: Seq<Seq<T>>, h: nat, i: int, j: int)
    requires
        b.len() == 2 * h,
    ensures
        p5_ints(a, b, h)(i, j) + p1_ints(a, b, h)(i, j) - p3_ints(a, b, h)(i, j) - p7_ints(a, b, h)(
            i,
            j,
        ) == dot(a, b, h + i, h + j),
{
    let a11 = quad(a, h, 0, 0);
    let a12 = quad(a, h, 0, 1);
    let a21 = quad(a, h, 1, 0);
    let a22 = quad(a, h, 1, 1);
    let b11 = quad(b, h, 0, 0);
    let b12 = quad(b, h, 0, 1);
    let b21 = quad(b, h, 1, 0);
    let b22 = quad(b, h, 1, 1);
    let s5 = |p: int| plus_ints(a11, a22)(i, p) * plus_ints(b11, b22)(p, j);
    let s1 = |p: int| a11(i, p) * minus_ints(b12, b22)(p, j);
    let s3 = |p: int| plus_ints(a21, a22)(i, p) * b11(p, j);
    let s7 = |p: int| minus_ints(a11, a21)(i, p) * plus_ints(b11, b12)(p, j);
    let u = |p: int| a21(i, p) * b12(p, j);
    let v = |p: int| a22(i, p) * b22(p, j);
    let lhs = |p: int| s5(p) + s1(p) - s3(p) - s7(p);
    let rhs = |p: int| u(p) + v(p);
    lemma_sum_combo_pmm(s5, s1, s3, s7, h);
    assert forall|p: int| 0 <= p < h implies #[trigger] lhs(p) == rhs(p) by {
        let x11 = a11(i, p);
        let x12 = a12(i, p);
        let x21 = a21(i, p);
        let x22 = a22(i, p);
        let y11 = b11(p, j);
        let y12 = b12(p, j);
        let y21 = b21(p, j);
        let y22 = b22(p, j);
        lemma_identity_11(x11, x21, x22, y11, y12, y22);
    }
    lemma_sum_ext(lhs, rhs, h);
    lemma_sum_add(u, v, h);
    lemma_dot_split(a, b, h, 1, 1, i, j);
}

/// The seven half-size products of `a` and `b`, recombined, give the four
/// quadrants of their product.
pub proof fn lemma_strassen<T: SimdOps>(
    a: Seq<Seq<T>>,
    b: Seq<Seq<T>>,
    h: nat,
    p: Seq<Seq<Seq<T>>>,
    c11: Seq<Seq<T>>,
    c12: Seq<Seq<T>>,
    c21: Seq<Seq<T>>,
    c22: Seq<Seq<T>>,
)
    requires
        is_shape(a, 2 * h, 2 * h),
        is_shape(b, 2 * h, 2 * h),
        p.len() == 7,
        p[0] == mat_mul(
            block(a, 0, 0, h, h),
            mat_sub(block(b, 0, h as int, h, h), block(b, h as int, h as int, h, h)),
            h,
        ),
        p[1] == mat_mul(mat_add(block(a, 0, 0, h, h), block(a, 0, h as int, h, h)), block(b, h as int, h as int, h, h), h),
        p[2] == mat_mul(mat_add(block(a, h as int, 0, h, h), block(a, h as int, h as int, h, h)), block(b, 0, 0, h, h), h),
        p[3] == mat_mul(
            block(a, h as int, h as int, h, h),
            mat_sub(block(b, h as int, 0, h, h), block(b, 0, 0, h, h)),
            h,
        ),
        p[4] == mat_mul(
            mat_add(block(a, 0, 0, h, h), block(a, h as int, h as int, h, h)),
            mat_add(block(b, 0, 0, h, h), block(b, h as int, h as int, h, h)),
            h,
        ),
        p[5] == mat_mul(
            mat_sub(block(a, 0, h as int, h, h), block(a, h as int, h as int, h, h)),
            mat_add(block(b, h as int, 0, h, h), block(b, h as int, h as int, h, h)),
            h,
        ),
        p[6] == mat_mul(
            mat_sub(block(a, 0, 0, h, h), block(a, h as int, 0, h, h)),
            mat_add(block(b, 0, 0, h, h), block(b, 0, h as int, h, h)),
            h,
        ),
        c11 == mat_add(mat_sub(mat_add(p[4], p[3]), p[1]), p[5]),
        c12 == mat_add(p[0], p[1]),
        c21 == mat_add(p[2], p[3]),
        c22 == mat_sub(mat_sub(mat_add(p[4], p[0]), p[2]), p[6]),
    ensures
        forall|i: int, j: int|
            0 <= i < h && 0 <= j < h ==> {
                &&& #[trigger] c11[i][j] == mat_mul(a, b, 2 * h)[i][j]
                &&& c12[i][j] == mat_mul(a, b, 2 * h)[i][h + j]
                &&& c21[i][j] == mat_mul(a, b, 2 * h)[h + i][j]
                &&& c22[i][j] == mat_mul(a, b, 2 * h)[h + i][h + j]
            },
{
    let n = 2 * h;
    T::lemma_modulus();
    let m = T::modulus();
    assert(0 * h == 0 && 1 * h == h);
    lemma_block_congruent(a, n, 0, 0, h);
    lemma_block_congruent(a, n, 0, h as int, h);
    lemma_block_congruent(a, n, h as int, 0, h);
    lemma_block_congruent(a, n, h as int, h as int, h);
    lemma_block_congruent(b, n, 0, 0, h);
    lemma_block_congruent(b, n, 0, h as int, h);
    lemma_block_congruent(b, n, h as int, 0, h);
    lemma_block_congruent(b, n, h as int, h as int, h);
    let a11 = quad(a, h, 0, 0);
    let a12 = quad(a, h, 0, 1);
    let a21 = quad(a, h, 1, 0);
    let a22 = quad(a, h, 1, 1);
    let b11 = quad(b, h, 0, 0);
    let b12 = quad(b, h, 0, 1);
    let b21 = quad(b, h, 1, 0);
    let b22 = quad(b, h, 1, 1);
    assert(a11 == block_ints(a, 0, 0) && a12 == block_ints(a, 0, h as int));
    assert(a21 == block_ints(a, h as int, 0) && a22 == block_ints(a, h as int, h as int));
    assert(b11 == block_ints(b, 0, 0) && b12 == block_ints(b, 0, h as int));
    assert(b21 == block_ints(b, h as int, 0) && b22 == block_ints(b, h as int, h as int));
    let qa11 = block(a, 0, 0, h, h);
    let qa12 = block(a, 0, h as int, h, h);
    let qa21 = block(a, h as int, 0, h, h);
    let qa22 = block(a, h as int, h as int, h, h);
    let qb11 = block(b, 0, 0, h, h);
    let qb12 = block(b, 0, h as int, h, h);
    let qb21 = block(b, h as int, 0, h, h);
    let qb22 = block(b, h as int, h as int, h, h);

    lemma_sub_congruent(qb12, qb22, b12, b22, h);
    lemma_mul_congruent(qa11, mat_sub(qb12, qb22), a11, minus_ints(b12, b22), h);
    lemma_add_congruent(qa11, qa12, a11, a12, h);
    lemma_mul_congruent(mat_add(qa11, qa12), qb22, plus_ints(a11, a12), b22, h);
    lemma_add_congruent(qa21, qa22, a21, a22, h);
    lemma_mul_congruent(mat_add(qa21, qa22), qb11, plus_ints(a21, a22), b11, h);
    lemma_sub_congruent(qb21, qb11, b21, b11, h);
    lemma_mul_congruent(qa22, mat_sub(qb21, qb11), a22, minus_ints(b21, b11), h);
    lemma_add_congruent(qa11, qa22, a11, a22, h);
    lemma_add_congruent(qb11, qb22, b11, b22, h);
    lemma_mul_congruent(mat_add(qa11, qa22), mat_add(qb11, qb22), plus_ints(a11, a22), plus_ints(b11, b22), h);
    lemma_sub_congruent(qa12, qa22, a12, a22, h);
    lemma_add_congruent(qb21, qb22, b21, b22, h);
    lemma_mul_congruent(mat_sub(qa12, qa22), mat_add(qb21, qb22), minus_ints(a12, a22), plus_ints(b21, b22), h);
    lemma_sub_congruent(qa11, qa21, a11, a21, h);
    lemma_add_congruent(qb11, qb12, b11, b12, h);
    lemma_mul_congruent(mat_sub(qa11, qa21), mat_add(qb11, qb12), minus_ints(a11, a21), plus_ints(b11, b12), h);

    let i1 = p1_ints(a, b, h);
    let i2 = p2_ints(a, b, h);
    let i3 = p3_ints(a, b, h);
    let i4 = p4_ints(a, b, h);
    let i5 = p5_ints(a, b, h);
    let i6 = p6_ints(a, b, h);
    let i7 = p7_ints(a, b, h);
    assert(congruent_to(p[0], i1, h));
    assert(congruent_to(p[1], i2, h));
    assert(congruent_to(p[2], i3, h));
    assert(congruent_to(p[3], i4, h));
    assert(congruent_to(p[4], i5, h));
    assert(congruent_to(p[5], i6, h));
    assert(congruent_to(p[6], i7, h));

    lemma_add_congruent(p[4], p[3], i5, i4, h);
    lemma_sub_congruent(mat_add(p[4], p[3]), p[1], plus_ints(i5, i4), i2, h);
    lemma_add_congruent(mat_sub(mat_add(p[4], p[3]), p[1]), p[5], minus_ints(plus_ints(i5, i4), i2), i6, h);
    lemma_add_congruent(p[0], p[1], i1, i2, h);
    lemma_add_congruent(p[2], p[3], i3, i4, h);
    lemma_add_congruent(p[4], p[0], i5, i1, h);
    lemma_sub_congruent(mat_add(p[4], p[0]), p[2], plus_ints(i5, i1), i3, h);
    lemma_sub_congruent(mat_sub(mat_add(p[4], p[0]), p[2]), p[6], minus_ints(plus_ints(i5, i1), i3), i7, h);

    let full = mat_mul(a, b, n);
    assert forall|i: int, j: int| 0 <= i < h && 0 <= j < h implies {
        &&& #[trigger] c11[i][j] == full[i][j]
        &&& c12[i][j] == full[i][h + j]
        &&& c21[i][j] == full[h + i][j]
        &&& c22[i][j] == full[h + i][h + j]
    } by {
        lemma_quadrant_00(a, b, h, i, j);
        lemma_quadrant_01(a, b, h, i, j);
        lemma_quadrant_10(a, b, h, i, j);
        lemma_quadrant_11(a, b, h, i, j);
        T::lemma_wrap_val(c11[i][j]);
        T::lemma_wrap_congruent(c11[i][j].val(), dot(a, b, i, j));
        T::lemma_wrap_val(c12[i][j]);
        T::lemma_wrap_congruent(c12[i][j].val(), dot(a, b, i, h + j));
        T::lemma_wrap_val(c21[i][j]);
        T::lemma_wrap_congruent(c21[i][j].val(), dot(a, b, h + i, j));
        T::lemma_wrap_val(c22[i][j]);
        T::lemma_wrap_congruent(c22[i][j].val(), dot(a, b, h + i, h + j));
    }
}

fn add_same<T: SimdOps>(a: &Matrix<T>, b: &Matrix<T>) -> (r: Matrix<T>)
    requires
        a.wf(),
        b.wf(),
        a.rows() == b.rows(),
        a.cols() == b.cols(),
    ensures
        r.wf(),
        r.rows() == a.rows(),
        r.cols() == a.cols(),
        r.entries() == mat_add(a.entries(), b.entries()),
{
    match a.add(b) {
        Ok(m) => m,
        Err(_) => vstd::pervasive::unreached(),
    }
}

fn sub_same<T: SimdOps>(a: &Matrix<T>, b: &Matrix<T>) -> (r: Matrix<T>)
    requires
        a.wf(),
        b.wf(),
        a.rows() == b.rows(),
        a.cols() == b.cols(),
    ensures
        r.wf(),
        r.rows() == a.rows(),
        r.cols() == a.cols(),
        r.entries() == mat_sub(a.entries(), b.entries()),
{
    match a.sub(b) {
        Ok(m) => m,
        Err(_) => vstd::pervasive::unreached(),
    }
}

/// Which quadrant result holds entry `(i, j)` of the recombined product.
pub open spec fn recombined<T>(
    c11: Seq<Seq<T>>,
    c12: Seq<Seq<T>>,
    c21: Seq<Seq<T>>,
    c22: Seq<Seq<T>>,
    h: int,
    i: int,
    j: int,
) -> T {
    if i < h {
        if j < h {
            c11[i][j]
        } else {
            c12[i][j - h]
        }
    } else {
        if j < h {
            c21[i - h][j]
        } else {
            c22[i - h][j - h]
        }
    }
}

/// Strassen's scheme on square factors of one size: splits even sizes from
/// the cutover on into quadrants and recurses on seven half-size products,
/// two pairs in parallel and then a pair beside the seventh; smaller or odd
/// sizes go to the lane-parallel pass or the triple loop.
pub(crate) fn strassen_with<T: SimdOps>(lhs: &Matrix<T>, rhs: &Matrix<T>, hardware: bool) -> (r: Matrix<T>)
    requires
        can_multiply(*lhs, *rhs),
        lhs.rows() == lhs.cols(),
        rhs.rows() == rhs.cols(),
    ensures
        is_product_of(r, *lhs, *rhs),
    decreases lhs.rows(),
{
    let n = lhs.rows;
    if n < STRASSEN_CUTOVER || n % 2 != 0 {
        if n * n >= MUL_SIMD_THRESHOLD && n >= MUL_SIMD_MIN_INNER && hardware {
            return multiply_simd(lhs, rhs);
        } else {
            return multiply_scalar(lhs, rhs);
        }
    }
    let h = n / 2;
    let a11 = lhs.submatrix(0, 0, h, h);
    let a12 = lhs.submatrix(0, h, h, h);
    let a21 = lhs.submatrix(h, 0, h, h);
    let a22 = lhs.submatrix(h, h, h, h);
    let b11 = rhs.submatrix(0, 0, h, h);
    let b12 = rhs.submatrix(0, h, h, h);
    let b21 = rhs.submatrix(h, 0, h, h);
    let b22 = rhs.submatrix(h, h, h, h);
    let s1 = sub_same(&b12, &b22);
    let s2 = add_same(&a11, &a12);
    let s3 = add_same(&a21, &a22);
    let s4 = sub_same(&b21, &b11);
    let s5 = add_same(&a11, &a22);
    let s6 = add_same(&b11, &b22);
    let s7 = sub_same(&a12, &a22);
    let s8 = add_same(&b21, &b22);
    let s9 = sub_same(&a11, &a21);
    let s10 = add_same(&b11, &b12);
    proof {
        assert(h * h <= n * n) by (nonlinear_arith)
            requires
                h <= n,
        ;
    }
    let t1 = || -> (r: Matrix<T>)
        ensures
            is_product_of(r, a11, s1),
        { strassen_with(&a11, &s1, hardware) };
    let t2 = || -> (r: Matrix<T>)
        ensures
            is_product_of(r, s2, b22),
        { strassen_with(&s2, &b22, hardware) };
    let t3 = || -> (r: Matrix<T>)
        ensures
            is_product_of(r, s3, b11),
        { strassen_with(&s3, &b11, hardware) };
    let t4 = || -> (r: Matrix<T>)
        ensures
            is_product_of(r, a22, s4),
        { strassen_with(&a22, &s4, hardware) };
    let t12 = || -> (r: (Matrix<T>, Matrix<T>))
        ensures
            is_product_of(r.0, a11, s1),
            is_product_of(r.1, s2, b22),
        { join(t1, t2) };
    let t34 = || -> (r: (Matrix<T>, Matrix<T>))
        ensures
            is_product_of(r.0, s3, b11),
            is_product_of(r.1, a22, s4),
        { join(t3, t4) };
    let ((p1, p2), (p3, p4)) = join(t12, t34);
    let t5 = || -> (r: Matrix<T>)
        ensures
            is_product_of(r, s5, s6),
        { strassen_with(&s5, &s6, hardware) };
    let t6 = || -> (r: Matrix<T>)
        ensures
            is_product_of(r, s7, s8),
        { strassen_with(&s7, &s8, hardware) };
    let t7 = || -> (r: Matrix<T>)
        ensures
            is_product_of(r, s9, s10),
        { strassen_with(&s9, &s10, hardware) };
    let t56 = || -> (r: (Matrix<T>, Matrix<T>))
        ensures
            is_product_of(r.0, s5, s6),
            is_product_of(r.1, s7, s8),
        { join(t5, t6) };
    let ((p5, p6), p7) = join(t56, t7);
    let c11 = add_same(&sub_same(&add_same(&p5, &p4), &p2), &p6);
    let c12 = add_same(&p1, &p2);
    let c21 = add_same(&p3, &p4);
    let c22 = sub_same(&sub_same(&add_same(&p5, &p1), &p3), &p7);
    proof {
        lemma_strassen(
            lhs.entries(),
            rhs.entries(),
            h as nat,
            seq![p1.entries(), p2.entries(), p3.entries(), p4.entries(), p5.entries(), p6.entries(), p7.entries()],
            c11.entries(),
            c12.entries(),
            c21.entries(),
            c22.entries(),
        );
    }
    let ghost want = mat_mul(lhs.entries(), rhs.entries(), n as nat);
    let mut data: Vec<T> = Vec::with_capacity(n * n);
    let mut i: usize = 0;
    while i < n
        invariant
            can_multiply(*lhs, *rhs),
            n == lhs.rows,
            n == rhs.cols,
            n == 2 * h,
            c11.wf() && c11.rows == h && c11.cols == h,
            c12.wf() && c12.rows == h && c12.cols == h,
            c21.wf() && c21.rows == h && c21.cols == h,
            c22.wf() && c22.rows == h && c22.cols == h,
            want == mat_mul(lhs.entries(), rhs.entries(), n as nat),
            i <= n,
            data@.len() == i * n,
            forall|x: int|
                0 <= x < data@.len() ==> #[trigger] data@[x] == recombined(
                    c11.entries(),
                    c12.entries(),
                    c21.entries(),
                    c22.entries(),
                    h as int,
                    x / n as int,
                    x % n as int,
                ),
        decreases n - i,
    {
        let mut j: usize = 0;
        while j < n
            invariant
                can_multiply(*lhs, *rhs),
                n == lhs.rows,
                n == rhs.cols,
                n == 2 * h,
                c11.wf() && c11.rows == h && c11.cols == h,
                c12.wf() && c12.rows == h && c12.cols == h,
                c21.wf() && c21.rows == h && c21.cols == h,
                c22.wf() && c22.rows == h && c22.cols == h,
                i < n,
                j <= n,
                data@.len() == i * n + j,
                forall|x: int|
                    0 <= x < data@.len() ==> #[trigger] data@[x] == recombined(
                        c11.entries(),
                        c12.entries(),
                        c21.entries(),
                        c22.entries(),
                        h as int,
                        x / n as int,
                        x % n as int,
                    ),
            decreases n - j,
        {
            proof {
                lemma_flat_index(i as int, j as int, n as int, n as int);
            }
            let quadrant = if i < h {
                if j < h {
                    &c11
                } else {
                    &c12
                }
            } else {
                if j < h {
                    &c21
                } else {
                    &c22
                }
            };
            let qi = if i < h { i } else { i - h };
            let qj = if j < h { j } else { j - h };
            proof {
                lemma_flat_index(qi as int, qj as int, h as int, h as int);
            }
            data.push(quadrant.data[qi * h + qj]);
            j += 1;
        }
        proof {
            lemma_flat_index(i as int, 0, n as int, n as int);
        }
        i += 1;
    }
    let r = Matrix { rows: n, cols: n, data };
    proof {
        lemma_view_of_flat(
            r,
            |x: int, y: int|
                recombined(
                    c11.entries(),
                    c12.entries(),
                    c21.entries(),
                    c22.entries(),
                    h as int,
                    x,
                    y,
                ),
        );
        assert forall|x: int| 0 <= x < n implies #[trigger] r.entries()[x] == want[x] by {
            assert forall|y: int| 0 <= y < n implies r.entries()[x][y] == want[x][y] by {
                if x < h && y < h {
                } else if x < h {
                    assert(c11.entries()[x][y - h] == want[x][y - h]);
                    assert(c12.entries()[x][y - h] == want[x][h + (y - h)]);
                } else if y < h {
                    assert(c11.entries()[x - h][y] == want[x - h][y]);
                    assert(c21.entries()[x - h][y] == want[h + (x - h)][y]);
                } else {
                    assert(c11.entries()[x - h][y - h] == want[x - h][y - h]);
                    assert(c22.entries()[x - h][y - h] == want[h + (x - h)][h + (y - h)]);
                }
            }
            assert(r.entries()[x] =~= want[x]);
        }
        assert(r.entries() =~= want);
    }
    r
}

/// Strassen's scheme, with the hardware's support for the lane-parallel pass
/// probed by the element type.
pub fn multiply_strassen<T: SimdOps>(lhs: &Matrix<T>, rhs: &Matrix<T>) -> (r: Matrix<T>)
    requires
        can_multiply(*lhs, *rhs),
        lhs.rows() == lhs.cols(),
        rhs.rows() == rhs.cols(),
    ensures
        is_product_of(r, *lhs, *rhs),
{
    strassen_with(lhs, rhs, T::has_hardware_support())
}

} // verus!
