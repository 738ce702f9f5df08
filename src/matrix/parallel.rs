//! Fork-join and data-parallel execution, handed to rayon.
use vstd::prelude::*;

use rayon::iter::{IntoParallelIterator, ParallelIterator};

verus! {

/// Relies on `rayon::join`: both closures run, possibly in parallel, and
/// their results come back as a pair in argument order.
#[verifier::external_body]
pub(crate) fn join<A, B, RA, RB>(oper_a: A, oper_b: B) -> (r: (RA, RB)) where
    A: FnOnce() -> RA + Send,
    B: FnOnce() -> RB + Send,
    RA: Send,
    RB: Send,

    requires
        oper_a.requires(()),
        oper_b.requires(()),
    ensures
        oper_a.ensures((), r.0),
        oper_b.ensures((), r.1),
{
    rayon::join(oper_a, oper_b)
}

/// Relies on rayon's indexed parallel iterators: collecting
/// `(0..n).into_par_iter().map(f)` into a `Vec` calls `f` once on every
/// index below `n` and stores each result at its index.
#[verifier::external_body]
pub(crate) fn par_map_range<R, F>(n: usize, f: F) -> (r: Vec<R>) where
    F: Fn(usize) -> R + Send + Sync,
    R: Send,

    requires
        forall|i: usize| i < n ==> #[trigger] f.requires((i,)),
    ensures
        r@.len() == n,
        forall|i: int| 0 <= i < n ==> f.ensures((i as usize,), #[trigger] r@[i]),
{
    (0..n).into_par_iter().map(f).collect()
}

} // verus!
