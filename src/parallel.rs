use vstd::prelude::*;
use rayon::iter::{
    IndexedParallelIterator, IntoParallelIterator, IntoParallelRefMutIterator, ParallelIterator,
};

verus! {

/// Relies on rayon's `into_par_iter` over the range `0..n`, `map` and
/// `collect_into_vec`: an indexed parallel iterator is collected with the
/// item of index `k` at position `k`, whichever thread computed it.
#[verifier::external_body]
pub(crate) fn par_collect<U: Send, F: Fn(usize) -> U + Sync>(n: usize, f: &F) -> (r: Vec<U>)
    requires
        forall|k: usize| k < n ==> #[trigger] f.requires((k,)),
    ensures
        r@.len() == n,
        forall|k: int| 0 <= k < n ==> f.ensures((k as usize,), #[trigger] r@[k]),
{
    let mut r = Vec::new();
    (0..n).into_par_iter().map(|k| f(k)).collect_into_vec(&mut r);
    r
}

/// Relies on rayon's `par_iter_mut` over a `Vec` and `for_each`: every
/// element is handed to the operation exactly once, by some thread, and the
/// vector keeps its length.
#[verifier::external_body]
pub(crate) fn par_update<T: Copy + Send + Sync, F: Fn(T) -> T + Sync>(v: &mut Vec<T>, f: &F)
    requires
        forall|t: T| f.requires((t,)),
    ensures
        final(v)@.len() == old(v)@.len(),
        forall|i: int|
            0 <= i < old(v)@.len() ==> f.ensures((old(v)@[i],), #[trigger] final(v)@[i]),
{
    v.par_iter_mut().for_each(|c| *c = f(*c));
}

} // verus!
