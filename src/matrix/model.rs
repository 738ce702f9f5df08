//! The mathematical model of matrices: nested sequences of rows, with each
//! element read as an integer modulo its type's width.
use vstd::prelude::*;

use super::simd::SimdOps;

verus! {

/// `x` and `y` leave the same remainder modulo `m`.
pub open spec fn congruent(x: int, y: int, m: int) -> bool {
    (x - y) % m == 0
}

pub proof fn lemma_cong_from_multiple(x: int, y: int, q: int, m: int)
    requires
        m > 0,
        x - y == q * m,
    ensures
        congruent(x, y, m),
{
    vstd::arithmetic::div_mod::lemma_mod_multiples_basic(q, m);
}

pub proof fn lemma_cong_to_multiple(x: int, y: int, m: int)
    requires
        m > 0,
        congruent(x, y, m),
    ensures
        x - y == ((x - y) / m) * m,
{
    vstd::arithmetic::div_mod::lemma_fundamental_div_mod(x - y, m);
    vstd::arithmetic::mul::lemma_mul_is_commutative(m, (x - y) / m);
}

pub proof fn lemma_cong_refl(x: int, m: int)
    requires
        m > 0,
    ensures
        congruent(x, x, m),
{
    lemma_cong_from_multiple(x, x, 0, m);
}

pub proof fn lemma_cong_symm(x: int, y: int, m: int)
    requires
        m > 0,
        congruent(x, y, m),
    ensures
        congruent(y, x, m),
{
    lemma_cong_to_multiple(x, y, m);
    let q = (x - y) / m;
    assert(y - x == (-q) * m) by (nonlinear_arith)
        requires
            x - y == q * m,
    ;
    lemma_cong_from_multiple(y, x, -q, m);
}

pub proof fn lemma_cong_trans(x: int, y: int, z: int, m: int)
    requires
        m > 0,
        congruent(x, y, m),
        congruent(y, z, m),
    ensures
        congruent(x, z, m),
{
    lemma_cong_to_multiple(x, y, m);
    lemma_cong_to_multiple(y, z, m);
    let q1 = (x - y) / m;
    let q2 = (y - z) / m;
    assert(x - z == (q1 + q2) * m) by (nonlinear_arith)
        requires
            x - y == q1 * m,
            y - z == q2 * m,
    ;
    lemma_cong_from_multiple(x, z, q1 + q2, m);
}

pub proof fn lemma_cong_add(x1: int, y1: int, x2: int, y2: int, m: int)
    requires
        m > 0,
        congruent(x1, y1, m),
        congruent(x2, y2, m),
    ensures
        congruent(x1 + x2, y1 + y2, m),
{
    lemma_cong_to_multiple(x1, y1, m);
    lemma_cong_to_multiple(x2, y2, m);
    let q1 = (x1 - y1) / m;
    let q2 = (x2 - y2) / m;
    assert((x1 + x2) - (y1 + y2) == (q1 + q2) * m) by (nonlinear_arith)
        requires
            x1 - y1 == q1 * m,
            x2 - y2 == q2 * m,
    ;
    lemma_cong_from_multiple(x1 + x2, y1 + y2, q1 + q2, m);
}

pub proof fn lemma_cong_sub(x1: int, y1: int, x2: int, y2: int, m: int)
    requires
        m > 0,
        congruent(x1, y1, m),
        congruent(x2, y2, m),
    ensures
        congruent(x1 - x2, y1 - y2, m),
{
    lemma_cong_to_multiple(x1, y1, m);
    lemma_cong_to_multiple(x2, y2, m);
    let q1 = (x1 - y1) / m;
    let q2 = (x2 - y2) / m;
    assert((x1 - x2) - (y1 - y2) == (q1 - q2) * m) by (nonlinear_arith)
        requires
            x1 - y1 == q1 * m,
            x2 - y2 == q2 * m,
    ;
    lemma_cong_from_multiple(x1 - x2, y1 - y2, q1 - q2, m);
}

pub proof fn lemma_cong_mul(x1: int, y1: int, x2: int, y2: int, m: int)
    requires
        m > 0,
        congruent(x1, y1, m),
        congruent(x2, y2, m),
    ensures
        congruent(x1 * x2, y1 * y2, m),
{
    lemma_cong_to_multiple(x1, y1, m);
    lemma_cong_to_multiple(x2, y2, m);
    let q1 = (x1 - y1) / m;
    let q2 = (x2 - y2) / m;
    assert(x1 * x2 - y1 * y2 == (x1 * q2 + y2 * q1) * m) by (nonlinear_arith)
        requires
            x1 - y1 == q1 * m,
            x2 - y2 == q2 * m,
    ;
    lemma_cong_from_multiple(x1 * x2, y1 * y2, x1 * q2 + y2 * q1, m);
}

/// The sum `f(0) + f(1) + ... + f(n - 1)`.
pub open spec fn sum(f: spec_fn(int) -> int, n: nat) -> int
    decreases n,
{
    if n == 0 {
        0
    } else {
        sum(f, (n - 1) as nat) + f(n - 1)
    }
}

pub proof fn lemma_sum_ext(f: spec_fn(int) -> int, g: spec_fn(int) -> int, n: nat)
    requires
        forall|p: int| 0 <= p < n ==> #[trigger] f(p) == g(p),
    ensures
        sum(f, n) == sum(g, n),
    decreases n,
{
    if n > 0 {
        lemma_sum_ext(f, g, (n - 1) as nat);
    }
}

pub proof fn lemma_sum_zero(f: spec_fn(int) -> int, n: nat)
    requires
        forall|p: int| 0 <= p < n ==> #[trigger] f(p) == 0,
    ensures
        sum(f, n) == 0,
    decreases n,
{
    if n > 0 {
        lemma_sum_zero(f, (n - 1) as nat);
    }
}

pub proof fn lemma_sum_add(f: spec_fn(int) -> int, g: spec_fn(int) -> int, n: nat)
    ensures
        sum(f, n) + sum(g, n) == sum(|p: int| f(p) + g(p), n),
    decreases n,
{
    if n > 0 {
        lemma_sum_add(f, g, (n - 1) as nat);
    }
}

pub proof fn lemma_sum_scale(c: int, f: spec_fn(int) -> int, n: nat)
    ensures
        c * sum(f, n) == sum(|p: int| c * f(p), n),
    decreases n,
{
    if n > 0 {
        lemma_sum_scale(c, f, (n - 1) as nat);
        let s = sum(f, (n - 1) as nat);
        assert(c * (s + f(n - 1)) == c * s + c * f(n - 1)) by (nonlinear_arith);
    }
}

pub proof fn lemma_sum_split(f: spec_fn(int) -> int, a: nat, b: nat)
    ensures
        sum(f, a + b) == sum(f, a) + sum(|p: int| f(a + p), b),
    decreases b,
{
    if b > 0 {
        lemma_sum_split(f, a, (b - 1) as nat);
        assert((a + b - 1) as nat == (a + (b - 1)) as nat);
    }
}

pub proof fn lemma_sum_cong(f: spec_fn(int) -> int, g: spec_fn(int) -> int, n: nat, m: int)
    requires
        m > 0,
        forall|p: int| 0 <= p < n ==> congruent(#[trigger] f(p), g(p), m),
    ensures
        congruent(sum(f, n), sum(g, n), m),
    decreases n,
{
    if n == 0 {
        lemma_cong_refl(0, m);
    } else {
        lemma_sum_cong(f, g, (n - 1) as nat, m);
        lemma_cong_add(sum(f, (n - 1) as nat), sum(g, (n - 1) as nat), f(n - 1), g(n - 1), m);
    }
}

pub proof fn lemma_sum_swap(f: spec_fn(int, int) -> int, n1: nat, n2: nat)
    ensures
        sum(|p: int| sum(|q: int| f(p, q), n2), n1) == sum(|q: int| sum(|p: int| f(p, q), n1), n2),
    decreases n1,
{
    if n1 > 0 {
        let k = (n1 - 1) as nat;
        lemma_sum_swap(f, k, n2);
        let g1 = |q: int| sum(|p: int| f(p, q), k);
        let g2 = |q: int| f(k as int, q);
        let h1 = |q: int| g1(q) + g2(q);
        let h2 = |q: int| sum(|p: int| f(p, q), n1);
        lemma_sum_add(g1, g2, n2);
        assert forall|q: int| 0 <= q < n2 implies #[trigger] h1(q) == h2(q) by {
            assert(sum(|p: int| f(p, q), n1) == sum(|p: int| f(p, q), k) + f(k as int, q));
        }
        lemma_sum_ext(h1, h2, n2);
        let l = |p: int| sum(|q: int| f(p, q), n2);
        assert(sum(l, n1) == sum(l, k) + l(k as int));
        lemma_sum_ext(|q: int| f(k as int, q), g2, n2);
        assert(l(k as int) == sum(g2, n2));
    } else {
        let z = |q: int| sum(|p: int| f(p, q), n1);
        assert forall|q: int| 0 <= q < n2 implies #[trigger] z(q) == 0 by {}
        lemma_sum_zero(z, n2);
    }
}

/// Every row of `a` has `cols` entries, and there are `rows` of them.
pub open spec fn is_shape<T>(a: Seq<Seq<T>>, rows: nat, cols: nat) -> bool {
    &&& a.len() == rows
    &&& forall|i: int| 0 <= i < rows ==> #[trigger] a[i].len() == cols
}

/// The integer dot product of row `i` of `a` with column `j` of `b`, over
/// the rows of `b`.
pub open spec fn dot<T: SimdOps>(a: Seq<Seq<T>>, b: Seq<Seq<T>>, i: int, j: int) -> int {
    sum(|p: int| a[i][p].val() * b[p][j].val(), b.len())
}

/// The product of `a` and `b`, where `b` has `n` columns.
pub open spec fn mat_mul<T: SimdOps>(a: Seq<Seq<T>>, b: Seq<Seq<T>>, n: nat) -> Seq<Seq<T>> {
    Seq::new(a.len(), |i: int| Seq::new(n, |j: int| T::wrap(dot(a, b, i, j))))
}

/// The entry-wise sum of `a` and `b`.
pub open spec fn mat_add<T: SimdOps>(a: Seq<Seq<T>>, b: Seq<Seq<T>>) -> Seq<Seq<T>> {
    Seq::new(
        a.len(),
        |i: int| Seq::new(a[i].len(), |j: int| T::wrap(a[i][j].val() + b[i][j].val())),
    )
}

/// The entry-wise difference of `a` and `b`.
pub open spec fn mat_sub<T: SimdOps>(a: Seq<Seq<T>>, b: Seq<Seq<T>>) -> Seq<Seq<T>> {
    Seq::new(
        a.len(),
        |i: int| Seq::new(a[i].len(), |j: int| T::wrap(a[i][j].val() - b[i][j].val())),
    )
}

/// Every entry of `a` multiplied by `s`.
pub open spec fn mat_scale<T: SimdOps>(a: Seq<Seq<T>>, s: T) -> Seq<Seq<T>> {
    Seq::new(a.len(), |i: int| Seq::new(a[i].len(), |j: int| T::wrap(a[i][j].val() * s.val())))
}

/// The transpose of `a`, which has `cols` columns.
pub open spec fn transposed<T>(a: Seq<Seq<T>>, cols: nat) -> Seq<Seq<T>> {
    Seq::new(cols, |j: int| Seq::new(a.len(), |i: int| a[i][j]))
}

/// The `rows` by `cols` block of `a` whose top left entry is `a[r0][c0]`.
pub open spec fn block<T>(a: Seq<Seq<T>>, r0: int, c0: int, rows: nat, cols: nat) -> Seq<
    Seq<T>,
> {
    Seq::new(rows, |i: int| Seq::new(cols, |j: int| a[r0 + i][c0 + j]))
}

} // verus!
