//! Work that is spread over threads.
use rayon::iter::{IntoParallelIterator, ParallelIterator};
use vstd::prelude::*;

verus! {

/// Calls `f` on each number below `n`, in parallel.
///
/// This is `into_par_iter` on the range, rayon's `map` and its `collect` into a `Vec`. A range is
/// an indexed iterator, `map` keeps it indexed, and an indexed iterator is collected in order: what
/// is trusted is that the result holds one value per number, each returned by a call of `f` on that
/// number, in the order of the numbers. As with a `Vec` that grows, memory is taken to suffice.
#[verifier::external_body]
pub(crate) fn par_map<T: Send, F: Fn(usize) -> T + Sync + Send>(n: usize, f: F) -> (r: Vec<T>)
    requires
        forall|i: usize| i < n ==> #[trigger] call_requires(f, (i,)),
    ensures
        r@.len() == n,
        forall|i: usize| i < n ==> #[trigger] call_ensures(f, (i,), r@[i as int]),
{
    (0..n).into_par_iter().map(f).collect()
}

} // verus!
