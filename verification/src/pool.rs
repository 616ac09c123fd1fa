//! The rayon thread pool that the hashing runs on.

use rayon::iter::IntoParallelRefIterator;
use rayon::iter::ParallelIterator;
use crate::cpus::{pin_target_spec, start_worker};
use vstd::prelude::*;

verus! {

/// `rayon::ThreadPool`, a pool of worker threads; opaque here.
#[verifier::external_type_specification]
#[verifier::external_body]
pub struct ExThreadPool(rayon::ThreadPool);

/// `rayon::ThreadPoolBuildError`, why a pool could not be built; opaque here.
#[verifier::external_type_specification]
#[verifier::external_body]
pub struct ExThreadPoolBuildError(rayon::ThreadPoolBuildError);

/// The number of worker threads of a rayon pool.
pub uninterp spec fn pool_threads(pool: rayon::ThreadPool) -> nat;

/// The most worker threads rayon gives one pool (`rayon::max_num_threads`):
/// its sleep counters hold 16 bits of thread count on 64-bit targets and 8
/// bits on 32-bit ones.
pub open spec fn max_pool_threads() -> nat {
    if usize::BITS == 64 { 65535 } else { 255 }
}

/// The number of worker threads rayon starts when asked for `requested`
/// of them (at least one): that many, up to `max_pool_threads`.
pub open spec fn pool_threads_for(requested: int) -> nat {
    if requested <= max_pool_threads() { requested as nat } else { max_pool_threads() }
}

/// The CPU that each worker of a rayon pool, by index, pins itself to
/// when its thread starts, before it runs any job (`None`: it pins to no
/// CPU).
pub uninterp spec fn pool_pin_targets(pool: rayon::ThreadPool) -> Seq<Option<usize>>;

/// The CPU that each of `workers` workers pins to in a pool built for
/// `cpus`: worker `i` to `pin_target_spec(cpus, i)`.
pub open spec fn pins_for(cpus: Seq<usize>, workers: nat) -> Seq<Option<usize>> {
    Seq::new(workers, |i: int| pin_target_spec(cpus, i))
}

/// Builds a rayon pool of `num_threads` worker threads whose start handler
/// runs the verified `start_worker(&targets, &pin, index)`: the calls
/// `ThreadPoolBuilder::new`, `num_threads`, `start_handler` and `build` in a
/// row (`ThreadPoolBuilder`'s default spawn type is private to rayon, so the
/// builder cannot appear in a signature here). For `num_threads >= 1` the
/// pool has `num_threads` workers, capped at `max_pool_threads`. Rayon runs
/// the start handler once on each worker, with that worker's index, before
/// the worker looks for work; so worker `i` pins itself to
/// `pin_target_spec(targets, i)`. Building fails when the system cannot
/// start a thread; nothing promises success.
#[verifier::external_body]
pub(crate) fn build_pinned_pool<F>(num_threads: usize, targets: Vec<usize>, pin: F) -> (r: Result<
    rayon::ThreadPool,
    rayon::ThreadPoolBuildError,
>) where F: Fn(usize) + Send + Sync + 'static
    requires
        forall|cpu: usize| pin.requires((cpu,)),
    ensures
        r matches Ok(p) ==> (num_threads >= 1 ==> pool_threads(p) == pool_threads_for(
            num_threads as int,
        )) && pool_pin_targets(p) == pins_for(targets@, pool_threads(p)),
{
    rayon::ThreadPoolBuilder::new().num_threads(num_threads).start_handler(
        move |index| {
            start_worker(&targets, &pin, index);
        },
    ).build()
}

/// Calls `rayon::ThreadPool::install`, which runs `op` once, inside the
/// pool (so that rayon's parallel work started by `op` runs on the pool's
/// threads), and returns what `op` returns.
#[verifier::external_body]
pub(crate) fn pool_install<OP, R>(pool: &rayon::ThreadPool, op: OP) -> (r: R) where
    OP: FnOnce() -> R + Send,
    R: Send,
    requires
        op.requires(()),
    ensures
        op.ensures((), r),
{
    pool.install(op)
}

/// Applies `f` to every item of `items` on the rayon pool of the calling
/// thread (`par_iter`, `map`, `collect` into a `Vec`): rayon calls `f` once
/// per item, spreading the items over the pool's threads, and the collected
/// vector keeps the items' order.
#[verifier::external_body]
pub(crate) fn par_map<T, U, F>(items: &[T], f: F) -> (out: Vec<U>) where
    T: Sync,
    U: Send,
    F: Fn(&T) -> U + Sync + Send,
    requires
        forall|i: int| 0 <= i < items@.len() ==> f.requires((&items@[i],)),
    ensures
        out@.len() == items@.len(),
        forall|i: int| 0 <= i < items@.len() ==> f.ensures((&items@[i],), #[trigger] out@[i]),
{
    items.par_iter().map(f).collect()
}

} // verus!
