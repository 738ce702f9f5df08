//! Algebraic laws of the matrix model, which every operation's contract is
//! stated over.
use vstd::prelude::*;

use super::model::{
    congruent,
    dot,
    is_shape,
    lemma_cong_add,
    lemma_cong_mul,
    lemma_cong_refl,
    lemma_cong_sub,
    lemma_cong_symm,
    lemma_cong_trans,
    lemma_sum_cong,
    lemma_sum_ext,
    lemma_sum_scale,
    lemma_sum_swap,
    mat_add,
    mat_mul,
    mat_sub,
    sum,
    transposed,
};
use super::mat::{lemma_flat_index, Matrix};
use super::mul::is_product_of;
use super::simd::SimdOps;

verus! {

/// Addition is commutative: `a + b == b + a`.
pub proof fn lemma_add_commutative<T: SimdOps>(a: Seq<Seq<T>>, b: Seq<Seq<T>>, rows: nat, cols: nat)
    requires
        is_shape(a, rows, cols),
        is_shape(b, rows, cols),
    ensures
        mat_add(a, b) == mat_add(b, a),
{
    let x = mat_add(a, b);
    let y = mat_add(b, a);
    assert forall|i: int| 0 <= i < rows implies #[trigger] x[i] == y[i] by {
        assert forall|j: int| 0 <= j < cols implies x[i][j] == y[i][j] by {
            assert(a[i][j].val() + b[i][j].val() == b[i][j].val() + a[i][j].val());
        }
        assert(x[i] =~= y[i]);
    }
    assert(x =~= y);
}

/// Addition is associative: `(a + b) + c == a + (b + c)`.
pub proof fn lemma_add_associative<T: SimdOps>(
    a: Seq<Seq<T>>,
    b: Seq<Seq<T>>,
    c: Seq<Seq<T>>,
    rows: nat,
    cols: nat,
)
    requires
        is_shape(a, rows, cols),
        is_shape(b, rows, cols),
        is_shape(c, rows, cols),
    ensures
        mat_add(mat_add(a, b), c) == mat_add(a, mat_add(b, c)),
{
    T::lemma_modulus();
    let md = T::modulus();
    let x = mat_add(mat_add(a, b), c);
    let y = mat_add(a, mat_add(b, c));
    assert forall|i: int| 0 <= i < rows implies #[trigger] x[i] == y[i] by {
        assert forall|j: int| 0 <= j < cols implies x[i][j] == y[i][j] by {
            let (u, v, w) = (a[i][j].val(), b[i][j].val(), c[i][j].val());
            T::lemma_wrap(u + v);
            T::lemma_wrap(v + w);
            lemma_cong_refl(w, md);
            lemma_cong_refl(u, md);
            lemma_cong_add(T::wrap(u + v).val(), u + v, w, w, md);
            lemma_cong_add(u, u, T::wrap(v + w).val(), v + w, md);
            lemma_cong_symm(u + T::wrap(v + w).val(), u + (v + w), md);
            lemma_cong_trans(T::wrap(u + v).val() + w, u + v + w, u + T::wrap(v + w).val(), md);
            T::lemma_wrap_congruent(T::wrap(u + v).val() + w, u + T::wrap(v + w).val());
        }
        assert(x[i] =~= y[i]);
    }
    assert(x =~= y);
}

/// Subtraction undoes addition: `(a + b) - b == a`.
pub proof fn lemma_add_sub_inverse<T: SimdOps>(a: Seq<Seq<T>>, b: Seq<Seq<T>>, rows: nat, cols: nat)
    requires
        is_shape(a, rows, cols),
        is_shape(b, rows, cols),
    ensures
        mat_sub(mat_add(a, b), b) == a,
{
    T::lemma_modulus();
    let md = T::modulus();
    let x = mat_sub(mat_add(a, b), b);
    assert forall|i: int| 0 <= i < rows implies #[trigger] x[i] == a[i] by {
        assert forall|j: int| 0 <= j < cols implies x[i][j] == a[i][j] by {
            let (u, v) = (a[i][j].val(), b[i][j].val());
            T::lemma_wrap(u + v);
            lemma_cong_refl(v, md);
            lemma_cong_sub(T::wrap(u + v).val(), u + v, v, v, md);
            T::lemma_wrap_congruent(T::wrap(u + v).val() - v, u);
            T::lemma_wrap_val(a[i][j]);
        }
        assert(x[i] =~= a[i]);
    }
    assert(x =~= a);
}

/// Transposing twice gives back the matrix: `transpose(transpose(a)) == a`.
pub proof fn lemma_transpose_involutive<T>(a: Seq<Seq<T>>, rows: nat, cols: nat)
    requires
        is_shape(a, rows, cols),
    ensures
        transposed(transposed(a, cols), rows) == a,
{
    let x = transposed(transposed(a, cols), rows);
    assert forall|i: int| 0 <= i < rows implies #[trigger] x[i] == a[i] by {
        assert(x[i] =~= a[i]);
    }
    assert(x =~= a);
}

proof fn lemma_mul_associative_entry<T: SimdOps>(
    a: Seq<Seq<T>>,
    b: Seq<Seq<T>>,
    c: Seq<Seq<T>>,
    m: nat,
    k: nat,
    l: nat,
    n: nat,
    i: int,
    j: int,
)
    requires
        is_shape(a, m, k),
        is_shape(b, k, l),
        is_shape(c, l, n),
        0 <= i < m,
        0 <= j < n,
    ensures
        congruent(dot(mat_mul(a, b, l), c, i, j), dot(a, mat_mul(b, c, n), i, j), T::modulus()),
{
    T::lemma_modulus();
    let md = T::modulus();
    let ab = mat_mul(a, b, l);
    let bc = mat_mul(b, c, n);
    let f = |p: int, q: int| a[i][p].val() * b[p][q].val() * c[q][j].val();

    let g1 = |q: int| ab[i][q].val() * c[q][j].val();
    let g2 = |q: int| sum(|p: int| a[i][p].val() * b[p][q].val(), k) * c[q][j].val();
    let g3 = |q: int| sum(|p: int| f(p, q), k);
    assert forall|q: int| 0 <= q < l implies congruent(#[trigger] g1(q), g2(q), md) by {
        T::lemma_wrap(dot(a, b, i, q));
        lemma_cong_refl(c[q][j].val(), md);
        lemma_cong_mul(ab[i][q].val(), dot(a, b, i, q), c[q][j].val(), c[q][j].val(), md);
    }
    lemma_sum_cong(g1, g2, l, md);
    assert forall|q: int| 0 <= q < l implies #[trigger] g2(q) == g3(q) by {
        let cq = c[q][j].val();
        let e = |p: int| a[i][p].val() * b[p][q].val();
        lemma_sum_scale(cq, e, k);
        assert forall|p: int| 0 <= p < k implies #[trigger] (cq * e(p)) == f(p, q) by {
            let (x, y) = (a[i][p].val(), b[p][q].val());
            assert(cq * (x * y) == x * y * cq) by (nonlinear_arith);
        }
        lemma_sum_ext(|p: int| cq * e(p), |p: int| f(p, q), k);
        assert(sum(e, k) * cq == cq * sum(e, k)) by (nonlinear_arith);
    }
    lemma_sum_ext(g2, g3, l);
    lemma_sum_swap(f, k, l);

    let h1 = |p: int| a[i][p].val() * bc[p][j].val();
    let h2 = |p: int| a[i][p].val() * sum(|q: int| b[p][q].val() * c[q][j].val(), l);
    let h3 = |p: int| sum(|q: int| f(p, q), l);
    assert forall|p: int| 0 <= p < k implies congruent(#[trigger] h1(p), h2(p), md) by {
        T::lemma_wrap(dot(b, c, p, j));
        lemma_cong_refl(a[i][p].val(), md);
        lemma_cong_mul(a[i][p].val(), a[i][p].val(), bc[p][j].val(), dot(b, c, p, j), md);
    }
    lemma_sum_cong(h1, h2, k, md);
    assert forall|p: int| 0 <= p < k implies #[trigger] h2(p) == h3(p) by {
        let ap = a[i][p].val();
        let e = |q: int| b[p][q].val() * c[q][j].val();
        lemma_sum_scale(ap, e, l);
        assert forall|q: int| 0 <= q < l implies #[trigger] (ap * e(q)) == f(p, q) by {
            let (y, z) = (b[p][q].val(), c[q][j].val());
            assert(ap * (y * z) == ap * y * z) by (nonlinear_arith);
        }
        lemma_sum_ext(|q: int| ap * e(q), |q: int| f(p, q), l);
    }
    lemma_sum_ext(h2, h3, k);
    lemma_cong_symm(sum(h1, k), sum(h2, k), md);
    lemma_cong_trans(sum(g1, l), sum(g2, l), sum(h1, k), md);
}

/// Multiplication is associative: `(a b) c == a (b c)`.
pub proof fn lemma_mul_associative<T: SimdOps>(
    a: Seq<Seq<T>>,
    b: Seq<Seq<T>>,
    c: Seq<Seq<T>>,
    m: nat,
    k: nat,
    l: nat,
    n: nat,
)
    requires
        is_shape(a, m, k),
        is_shape(b, k, l),
        is_shape(c, l, n),
    ensures
        mat_mul(mat_mul(a, b, l), c, n) == mat_mul(a, mat_mul(b, c, n), n),
{
    let x = mat_mul(mat_mul(a, b, l), c, n);
    let y = mat_mul(a, mat_mul(b, c, n), n);
    assert forall|i: int| 0 <= i < m implies #[trigger] x[i] == y[i] by {
        assert forall|j: int| 0 <= j < n implies x[i][j] == y[i][j] by {
            lemma_mul_associative_entry(a, b, c, m, k, l, n, i, j);
            T::lemma_wrap_congruent(
                dot(mat_mul(a, b, l), c, i, j),
                dot(a, mat_mul(b, c, n), i, j),
            );
        }
        assert(x[i] =~= y[i]);
    }
    assert(x =~= y);
}

/// Every strategy computes the same matrix: two results that both meet the
/// product contract for the same factors hold the same entries in the same
/// buffer layout.
pub proof fn lemma_products_agree<T: SimdOps>(r1: Matrix<T>, r2: Matrix<T>, lhs: Matrix<T>, rhs: Matrix<T>)
    requires
        is_product_of(r1, lhs, rhs),
        is_product_of(r2, lhs, rhs),
    ensures
        r1.rows() == r2.rows(),
        r1.cols() == r2.cols(),
        r1.flat() == r2.flat(),
{
    let cols = r1.cols as int;
    assert forall|x: int| 0 <= x < r1.data@.len() implies #[trigger] r1.data@[x] == r2.data@[x] by {
        if cols > 0 {
            vstd::arithmetic::div_mod::lemma_fundamental_div_mod(x, cols);
            let i = x / cols;
            let j = x % cols;
            assert(x == i * cols + j) by (nonlinear_arith)
                requires
                    x == cols * (x / cols) + x % cols,
                    i == x / cols,
                    j == x % cols,
            ;
            assert(0 <= i < r1.rows) by {
                vstd::arithmetic::div_mod::lemma_div_pos_is_pos(x, cols);
                assert(x < cols * r1.rows) by (nonlinear_arith)
                    requires
                        x < r1.rows * cols,
                ;
                vstd::arithmetic::div_mod::lemma_multiply_divide_lt(x, cols, r1.rows as int);
            }
            lemma_flat_index(i, j, r1.rows as int, cols);
            assert(r1.entries()[i][j] == r2.entries()[i][j]);
        } else {
            assert(r1.data@.len() == 0) by (nonlinear_arith)
                requires
                    r1.data@.len() == r1.rows * r1.cols,
                    r1.cols == 0,
            ;
        }
    }
    assert(r1.data@ =~= r2.data@);
}

} // verus!
