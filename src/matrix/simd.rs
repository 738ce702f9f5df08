//! Per-type element arithmetic and the vector-lane kernels built on it.
//!
//! Each element type reads as an integer taken modulo 2 to the power of its
//! width, and its operations wrap around as the machine's do. A lane is
//! `lane_size()` consecutive elements handled by one fixed-length inner loop,
//! which the compiler turns into vector instructions.
use vstd::prelude::*;

use super::model::{congruent, lemma_cong_add, lemma_cong_trans, sum};

verus! {

pub trait SimdOps: Sized + Copy + Send + Sync {
    /// The integer that this value stands for.
    spec fn val(self) -> int;

    /// Two to the power of the type's width in bits.
    spec fn modulus() -> int;

    /// The value of this type whose integer is congruent to `x`.
    spec fn wrap(x: int) -> Self;

    proof fn lemma_modulus()
        ensures
            Self::modulus() > 1,
    ;

    proof fn lemma_wrap(x: int)
        ensures
            congruent(Self::wrap(x).val(), x, Self::modulus()),
    ;

    proof fn lemma_wrap_val(a: Self)
        ensures
            Self::wrap(a.val()) == a,
    ;

    proof fn lemma_wrap_congruent(x: int, y: int)
        requires
            congruent(x, y, Self::modulus()),
        ensures
            Self::wrap(x) == Self::wrap(y),
    ;

    /// Elements per vector lane.
    fn lane_size() -> (r: usize)
        ensures
            1 <= r <= 16,
    ;

    /// Whether the lane-parallel paths pay off for this type. The lane
    /// kernels are portable fixed-length loops that the compiler vectorises
    /// for whatever target it builds, so every type here reports support; a
    /// caller that probes the processor passes its own answer to
    /// `Matrix::multiply_with`.
    fn has_hardware_support() -> bool;

    fn zero() -> (r: Self)
        ensures
            r == Self::wrap(0),
    ;

    fn plus(self, other: Self) -> (r: Self)
        ensures
            r == Self::wrap(self.val() + other.val()),
    ;

    fn minus(self, other: Self) -> (r: Self)
        ensures
            r == Self::wrap(self.val() - other.val()),
    ;

    fn times(self, other: Self) -> (r: Self)
        ensures
            r == Self::wrap(self.val() * other.val()),
    ;

    /// Whether the value is negative, and its distance from zero.
    fn sign_magnitude(self) -> (r: (bool, u64))
        ensures
            r.0 == (self.val() < 0),
            r.1 == if self.val() < 0 {
                -self.val()
            } else {
                self.val()
            },
    ;
}

impl SimdOps for i32 {
    open spec fn val(self) -> int {
        self as int
    }

    open spec fn modulus() -> int {
        0x1_0000_0000
    }

    open spec fn wrap(x: int) -> i32 {
        vstd::wrapping::i32_specs::signed_crop(x)
    }

    proof fn lemma_modulus() {
    }

    proof fn lemma_wrap(x: int) {
    }

    proof fn lemma_wrap_val(a: i32) {
    }

    proof fn lemma_wrap_congruent(x: int, y: int) {
        vstd::arithmetic::div_mod::lemma_mod_equivalence(x, y, Self::modulus());
    }

    fn lane_size() -> (r: usize) {
        8
    }

    fn has_hardware_support() -> bool {
        true
    }

    fn zero() -> (r: i32) {
        0
    }

    fn plus(self, other: i32) -> (r: i32) {
        self.wrapping_add(other)
    }

    fn minus(self, other: i32) -> (r: i32) {
        self.wrapping_sub(other)
    }

    fn times(self, other: i32) -> (r: i32) {
        self.wrapping_mul(other)
    }

    fn sign_magnitude(self) -> (r: (bool, u64)) {
        let x = self as i64;
        if x < 0 {
            (true, (-x) as u64)
        } else {
            (false, x as u64)
        }
    }
}

impl SimdOps for i64 {
    open spec fn val(self) -> int {
        self as int
    }

    open spec fn modulus() -> int {
        0x1_0000_0000_0000_0000
    }

    open spec fn wrap(x: int) -> i64 {
        vstd::wrapping::i64_specs::signed_crop(x)
    }

    proof fn lemma_modulus() {
    }

    proof fn lemma_wrap(x: int) {
    }

    proof fn lemma_wrap_val(a: i64) {
    }

    proof fn lemma_wrap_congruent(x: int, y: int) {
        vstd::arithmetic::div_mod::lemma_mod_equivalence(x, y, Self::modulus());
    }

    fn lane_size() -> (r: usize) {
        4
    }

    fn has_hardware_support() -> bool {
        true
    }

    fn zero() -> (r: i64) {
        0
    }

    fn plus(self, other: i64) -> (r: i64) {
        self.wrapping_add(other)
    }

    fn minus(self, other: i64) -> (r: i64) {
        self.wrapping_sub(other)
    }

    fn times(self, other: i64) -> (r: i64) {
        self.wrapping_mul(other)
    }

    fn sign_magnitude(self) -> (r: (bool, u64)) {
        let x = self as i128;
        if x < 0 {
            (true, (-x) as u64)
        } else {
            (false, x as u64)
        }
    }
}

impl SimdOps for u32 {
    open spec fn val(self) -> int {
        self as int
    }

    open spec fn modulus() -> int {
        0x1_0000_0000
    }

    open spec fn wrap(x: int) -> u32 {
        (x % 0x1_0000_0000) as u32
    }

    proof fn lemma_modulus() {
    }

    proof fn lemma_wrap(x: int) {
    }

    proof fn lemma_wrap_val(a: u32) {
    }

    proof fn lemma_wrap_congruent(x: int, y: int) {
        vstd::arithmetic::div_mod::lemma_mod_equivalence(x, y, Self::modulus());
    }

    fn lane_size() -> (r: usize) {
        8
    }

    fn has_hardware_support() -> bool {
        true
    }

    fn zero() -> (r: u32) {
        0
    }

    fn plus(self, other: u32) -> (r: u32) {
        self.wrapping_add(other)
    }

    fn minus(self, other: u32) -> (r: u32) {
        self.wrapping_sub(other)
    }

    fn times(self, other: u32) -> (r: u32) {
        self.wrapping_mul(other)
    }

    fn sign_magnitude(self) -> (r: (bool, u64)) {
        (false, self as u64)
    }
}

impl SimdOps for u64 {
    open spec fn val(self) -> int {
        self as int
    }

    open spec fn modulus() -> int {
        0x1_0000_0000_0000_0000
    }

    open spec fn wrap(x: int) -> u64 {
        (x % 0x1_0000_0000_0000_0000) as u64
    }

    proof fn lemma_modulus() {
    }

    proof fn lemma_wrap(x: int) {
    }

    proof fn lemma_wrap_val(a: u64) {
    }

    proof fn lemma_wrap_congruent(x: int, y: int) {
        vstd::arithmetic::div_mod::lemma_mod_equivalence(x, y, Self::modulus());
    }

    fn lane_size() -> (r: usize) {
        4
    }

    fn has_hardware_support() -> bool {
        true
    }

    fn zero() -> (r: u64) {
        0
    }

    fn plus(self, other: u64) -> (r: u64) {
        self.wrapping_add(other)
    }

    fn minus(self, other: u64) -> (r: u64) {
        self.wrapping_sub(other)
    }

    fn times(self, other: u64) -> (r: u64) {
        self.wrapping_mul(other)
    }

    fn sign_magnitude(self) -> (r: (bool, u64)) {
        (false, self)
    }
}

/// The entry-wise operations that the lane kernels carry out.
#[derive(Clone, Copy, PartialEq, Eq, Debug)]
pub enum LaneOp {
    Add,
    Sub,
}

/// What `op` makes of the entries `x` and `y`.
pub open spec fn lane_op<T: SimdOps>(op: LaneOp, x: T, y: T) -> T {
    match op {
        LaneOp::Add => T::wrap(x.val() + y.val()),
        LaneOp::Sub => T::wrap(x.val() - y.val()),
    }
}

pub(crate) fn apply<T: SimdOps>(op: LaneOp, x: T, y: T) -> (r: T)
    ensures
        r == lane_op(op, x, y),
{
    match op {
        LaneOp::Add => x.plus(y),
        LaneOp::Sub => x.minus(y),
    }
}

/// Applies `op` to the entries `start..end` of `a` and `b`: whole lanes
/// first, then the entries left over past the last whole lane.
pub fn combine_block<T: SimdOps>(op: LaneOp, a: &[T], b: &[T], start: usize, end: usize) -> (r: Vec<
    T,
>)
    requires
        start <= end <= a@.len(),
        end <= b@.len(),
    ensures
        r@.len() == end - start,
        forall|k: int|
            0 <= k < end - start ==> #[trigger] r@[k] == lane_op(op, a@[start + k], b@[start + k]),
{
    let lane = T::lane_size();
    let mut r: Vec<T> = Vec::with_capacity(end - start);
    let mut off: usize = start;
    while end - off >= lane
        invariant
            start <= off <= end,
            end <= a@.len(),
            end <= b@.len(),
            1 <= lane <= 16,
            r@.len() == off - start,
            forall|k: int|
                0 <= k < off - start ==> #[trigger] r@[k] == lane_op(op, a@[start + k], b@[start + k]),
        decreases end - off,
    {
        let mut l: usize = 0;
        while l < lane
            invariant
                start <= off,
                off + lane <= end,
                end <= a@.len(),
                end <= b@.len(),
                l <= lane,
                r@.len() == off + l - start,
                forall|k: int|
                    0 <= k < off + l - start ==> #[trigger] r@[k] == lane_op(
                        op,
                        a@[start + k],
                        b@[start + k],
                    ),
            decreases lane - l,
        {
            r.push(apply(op, a[off + l], b[off + l]));
            l += 1;
        }
        off += lane;
    }
    while off < end
        invariant
            start <= off <= end,
            end <= a@.len(),
            end <= b@.len(),
            r@.len() == off - start,
            forall|k: int|
                0 <= k < off - start ==> #[trigger] r@[k] == lane_op(op, a@[start + k], b@[start + k]),
        decreases end - off,
    {
        r.push(apply(op, a[off], b[off]));
        off += 1;
    }
    r
}

/// The integer sum of `a[sa + p] * b[sb + p]` for `p < len`.
pub open spec fn strided_dot<T: SimdOps>(a: Seq<T>, sa: int, b: Seq<T>, sb: int, len: nat) -> int {
    sum(|p: int| a[sa + p].val() * b[sb + p].val(), len)
}

/// Multiplies `a[sa..sa + len]` by `b[sb..sb + len]` lane by lane, sums each
/// product lane horizontally, and adds the leftover entries one by one.
pub fn dot_lanes<T: SimdOps>(a: &[T], sa: usize, b: &[T], sb: usize, len: usize) -> (r: T)
    requires
        sa + len <= a@.len(),
        sb + len <= b@.len(),
    ensures
        r == T::wrap(strided_dot(a@, sa as int, b@, sb as int, len as nat)),
{
    let lane = T::lane_size();
    let a_len = a.len();
    let b_len = b.len();
    let ghost f = |p: int| a@[sa + p].val() * b@[sb + p].val();
    let ghost m = T::modulus();
    proof {
        T::lemma_modulus();
        T::lemma_wrap(0);
    }
    let mut acc = T::zero();
    let mut off: usize = 0;
    while len - off >= lane
        invariant
            off <= len,
            sa + len <= a@.len() == a_len,
            sb + len <= b@.len() == b_len,
            1 <= lane <= 16,
            m == T::modulus(),
            m > 1,
            f == (|p: int| a@[sa + p].val() * b@[sb + p].val()),
            congruent(acc.val(), sum(f, off as nat), m),
        decreases len - off,
    {
        let mut lane_sum = T::zero();
        let mut l: usize = 0;
        proof {
            T::lemma_wrap(0);
        }
        while l < lane
            invariant
                off + lane <= len,
                sa + len <= a@.len() == a_len,
                sb + len <= b@.len() == b_len,
                l <= lane,
                m == T::modulus(),
                m > 1,
                f == (|p: int| a@[sa + p].val() * b@[sb + p].val()),
                congruent(lane_sum.val(), sum(f, (off + l) as nat) - sum(f, off as nat), m),
            decreases lane - l,
        {
            let x = a[sa + off + l];
            let y = b[sb + off + l];
            let prod = x.times(y);
            let next = lane_sum.plus(prod);
            proof {
                T::lemma_wrap(x.val() * y.val());
                T::lemma_wrap(lane_sum.val() + prod.val());
                lemma_cong_add(
                    lane_sum.val(),
                    sum(f, (off + l) as nat) - sum(f, off as nat),
                    prod.val(),
                    x.val() * y.val(),
                    m,
                );
                lemma_cong_trans(
                    next.val(),
                    lane_sum.val() + prod.val(),
                    sum(f, (off + l + 1) as nat) - sum(f, off as nat),
                    m,
                );
            }
            lane_sum = next;
            l += 1;
        }
        let next = acc.plus(lane_sum);
        proof {
            T::lemma_wrap(acc.val() + lane_sum.val());
            lemma_cong_add(
                acc.val(),
                sum(f, off as nat),
                lane_sum.val(),
                sum(f, (off + lane) as nat) - sum(f, off as nat),
                m,
            );
            lemma_cong_trans(
                next.val(),
                acc.val() + lane_sum.val(),
                sum(f, (off + lane) as nat),
                m,
            );
        }
        acc = next;
        off += lane;
    }
    while off < len
        invariant
            off <= len,
            sa + len <= a@.len() == a_len,
            sb + len <= b@.len() == b_len,
            m == T::modulus(),
            m > 1,
            f == (|p: int| a@[sa + p].val() * b@[sb + p].val()),
            congruent(acc.val(), sum(f, off as nat), m),
        decreases len - off,
    {
        let x = a[sa + off];
        let y = b[sb + off];
        let prod = x.times(y);
        let next = acc.plus(prod);
        proof {
            T::lemma_wrap(x.val() * y.val());
            T::lemma_wrap(acc.val() + prod.val());
            lemma_cong_add(acc.val(), sum(f, off as nat), prod.val(), x.val() * y.val(), m);
            lemma_cong_trans(next.val(), acc.val() + prod.val(), sum(f, (off + 1) as nat), m);
        }
        acc = next;
        off += 1;
    }
    proof {
        T::lemma_wrap_val(acc);
        T::lemma_wrap_congruent(acc.val(), sum(f, len as nat));
    }
    acc
}

} // verus!
