//! A BLAKE3 hasher backed by a rayon pool whose threads are pinned to a
//! chosen set of CPUs.

use crate::cpus::{
    all_threads_cpu_set, all_threads_cpus, default_cpu_set, default_cpus, pool_size, thread_count,
};
use crate::digest::{blake3_hash, Digest, digest_outcome, hash_outcome, tree_hash};
use crate::pool::{
    build_pinned_pool, par_map, pins_for, pool_install, pool_pin_targets, pool_threads,
    pool_threads_for,
};
use vstd::prelude::*;

verus! {

/// `outcome` is what hashing one possible result of `read(path)` gives:
/// the digest of the bytes read, or the read's error.
pub open spec fn hashed_after_read<P, E, R: Fn(&P) -> Result<Vec<u8>, E>>(
    read: R,
    path: &P,
    outcome: Result<Digest, E>,
) -> bool {
    exists|c: Result<Vec<u8>, E>| read.ensures((path,), c) && outcome == digest_outcome(c)
}

/// `read` is stable: reading a path gives one outcome, however often it
/// is read (no file changes in between).
pub open spec fn stable_read<P, E, R: Fn(&P) -> Result<Vec<u8>, E>>(read: R) -> bool {
    forall|p: &P, c1: Result<Vec<u8>, E>, c2: Result<Vec<u8>, E>|
        #![trigger read.ensures((p,), c1), read.ensures((p,), c2)]
        read.ensures((p,), c1) && read.ensures((p,), c2) ==> c1 == c2
}

proof fn lemma_stable_outcome<P, E, R: Fn(&P) -> Result<Vec<u8>, E>>(
    read: R,
    path: &P,
    outcome: Result<Digest, E>,
    c: Result<Vec<u8>, E>,
)
    requires
        stable_read(read),
        hashed_after_read(read, path, outcome),
        read.ensures((path,), c),
    ensures
        outcome == digest_outcome(c),
{
    let c0 = choose|c0: Result<Vec<u8>, E>| read.ensures((path,), c0) && outcome == digest_outcome(c0);
    assert(read.ensures((path,), c0) && read.ensures((path,), c));
}

/// With a stable read, hashing a batch gives, path by path, what
/// `hash_file` gives for the outcome of reading that path, whichever worker
/// handled which file.
pub proof fn lemma_batch_is_file_by_file<P, E, R: Fn(&P) -> Result<Vec<u8>, E>>(
    read: R,
    paths: Seq<P>,
    batch: Seq<Result<Digest, E>>,
    contents: Seq<Result<Vec<u8>, E>>,
)
    requires
        stable_read(read),
        batch.len() == paths.len(),
        forall|i: int| 0 <= i < paths.len() ==> #[trigger] hashed_after_read(read, &paths[i], batch[i]),
        contents.len() == paths.len(),
        forall|i: int| 0 <= i < paths.len() ==> read.ensures((&paths[i],), #[trigger] contents[i]),
    ensures
        forall|i: int| 0 <= i < paths.len() ==> #[trigger] batch[i] == digest_outcome(contents[i]),
{
    assert forall|i: int| 0 <= i < paths.len() implies #[trigger] batch[i] == digest_outcome(contents[i]) by {
        assert(hashed_after_read(read, &paths[i], batch[i]));
        assert(read.ensures((&paths[i],), contents[i]));
        lemma_stable_outcome(read, &paths[i], batch[i], contents[i]);
    }
}

/// With a stable read, hashing the concatenation of two batches of paths
/// gives the results of hashing each batch, one after the other.
pub proof fn lemma_batch_concatenates<P, E, R: Fn(&P) -> Result<Vec<u8>, E>>(
    read: R,
    a: Seq<P>,
    b: Seq<P>,
    both: Seq<Result<Digest, E>>,
    first: Seq<Result<Digest, E>>,
    second: Seq<Result<Digest, E>>,
)
    requires
        stable_read(read),
        both.len() == a.len() + b.len(),
        forall|i: int| 0 <= i < a.len() + b.len() ==> #[trigger] hashed_after_read(read, &(a + b)[i], both[i]),
        first.len() == a.len(),
        forall|i: int| 0 <= i < a.len() ==> #[trigger] hashed_after_read(read, &a[i], first[i]),
        second.len() == b.len(),
        forall|i: int| 0 <= i < b.len() ==> #[trigger] hashed_after_read(read, &b[i], second[i]),
    ensures
        both == first + second,
{
    assert forall|i: int| 0 <= i < both.len() implies both[i] == (first + second)[i] by {
        assert(hashed_after_read(read, &(a + b)[i], both[i]));
        if i < a.len() {
            assert((a + b)[i] == a[i]);
            assert(hashed_after_read(read, &a[i], first[i]));
            let c = choose|c: Result<Vec<u8>, E>| read.ensures((&a[i],), c) && first[i] == digest_outcome(c);
            lemma_stable_outcome(read, &a[i], both[i], c);
        } else {
            let k = i - a.len();
            assert((a + b)[i] == b[k]);
            assert(hashed_after_read(read, &b[k], second[k]));
            let c = choose|c: Result<Vec<u8>, E>| read.ensures((&b[k],), c) && second[k] == digest_outcome(c);
            lemma_stable_outcome(read, &b[k], both[i], c);
        }
    }
    assert(both =~= first + second);
}

/// Why a hasher could not be made.
#[derive(Debug)]
pub enum CoreHasherError {
    /// The worker pool could not be built (a thread could not be started).
    PoolBuild(rayon::ThreadPoolBuildError),
}

/// A BLAKE3 hasher backed by one rayon pool whose threads are pinned to a
/// chosen set of CPUs. A single buffer is hashed with BLAKE3's tree
/// parallelism across the whole pool; a batch is hashed one file per
/// thread (rayon work-steals, so fast cores take more files and slow ones
/// fewer).
pub struct CoreHasher {
    pool: rayon::ThreadPool,
    threads: usize,
    cpus: Ghost<Seq<usize>>,
}

impl CoreHasher {
    #[verifier::type_invariant]
    spec fn well_formed(self) -> bool {
        &&& self.threads == thread_count(self.cpus@)
        &&& pool_threads(self.pool) == pool_threads_for(self.threads as int)
        &&& pool_pin_targets(self.pool) == pins_for(self.cpus@, pool_threads(self.pool))
    }

    /// The CPUs the hasher's pool was built for.
    pub closed spec fn cpu_set(self) -> Seq<usize> {
        self.cpus@
    }

    /// The number of worker threads of the pool that the hashing runs on.
    pub closed spec fn workers(self) -> nat {
        pool_threads(self.pool)
    }

    /// The CPU that each worker of the pool, by index, pinned itself to
    /// when it started, before running any job (`None`: no pin).
    pub closed spec fn worker_pins(self) -> Seq<Option<usize>> {
        pool_pin_targets(self.pool)
    }

    /// A pool with one worker thread per CPU of `cpus` (one if `cpus` is
    /// empty; rayon caps the count at `max_pool_threads`), worker `i`
    /// pinned by `pin` to `cpus[i % cpus.len()]` when it starts (no pin at
    /// all when `cpus` is empty). `pin` pins the calling thread to the CPU
    /// it is given. Fails with the pool builder's error when the system
    /// cannot start a thread.
    pub fn with_cpus<F>(cpus: &[usize], pin: F) -> (r: Result<CoreHasher, CoreHasherError>) where
        F: Fn(usize) + Send + Sync + 'static,
        requires
            forall|cpu: usize| pin.requires((cpu,)),
        ensures
            r matches Ok(h) ==> h.cpu_set() == cpus@ && h.workers() == pool_threads_for(
                thread_count(cpus@),
            ) && h.worker_pins() == pins_for(cpus@, h.workers()),
            r matches Err(e) ==> e is PoolBuild,
    {
        let threads = pool_size(cpus);
        let targets = vstd::slice::slice_to_vec(cpus);
        let built = build_pinned_pool(threads, targets, pin);
        Self::from_build(built, cpus)
    }

    /// The hasher made from the outcome of building its pool for `cpus`
    /// (a pool of `pool_threads_for(thread_count(cpus))` workers, worker
    /// `i` pinned to `pin_target_spec(cpus, i)`): that pool, with `cpus`
    /// as its CPU set, or the builder's error, passed through.
    pub fn from_build(
        built: Result<rayon::ThreadPool, rayon::ThreadPoolBuildError>,
        cpus: &[usize],
    ) -> (r: Result<CoreHasher, CoreHasherError>)
        requires
            built matches Ok(p) ==> pool_threads(p) == pool_threads_for(thread_count(cpus@))
                && pool_pin_targets(p) == pins_for(cpus@, pool_threads(p)),
        ensures
            match built {
                Ok(p) => r matches Ok(h) && h.cpu_set() == cpus@ && h.workers() == pool_threads(p)
                    && h.worker_pins() == pool_pin_targets(p),
                Err(e) => r matches Err(CoreHasherError::PoolBuild(e2)) && e2 == e,
            },
    {
        match built {
            Ok(pool) => Ok(CoreHasher { pool, threads: pool_size(cpus), cpus: Ghost(cpus@) }),
            Err(e) => Err(CoreHasherError::PoolBuild(e)),
        }
    }

    /// One thread per physical core, across every core of the machine,
    /// SMT siblings collapsed: the recommended default. `physical` holds one
    /// logical CPU per physical core and `logical` every logical CPU, as
    /// read from the system; with no physical cores known it falls back to
    /// `all_threads`.
    pub fn new<F>(physical: &[usize], logical: &[usize], pin: F) -> (r: Result<
        CoreHasher,
        CoreHasherError,
    >) where F: Fn(usize) + Send + Sync + 'static
        requires
            forall|cpu: usize| pin.requires((cpu,)),
        ensures
            r matches Ok(h) ==> h.cpu_set() == default_cpus(physical@, logical@) && h.workers()
                == pool_threads_for(thread_count(default_cpus(physical@, logical@)))
                && h.worker_pins() == pins_for(default_cpus(physical@, logical@), h.workers()),
            r matches Err(e) ==> e is PoolBuild,
    {
        let cpus = default_cpu_set(physical, logical);
        Self::with_cpus(cpus.as_slice(), pin)
    }

    /// One thread per logical CPU, every SMT thread of every core (CPU 0
    /// alone if `logical` is empty).
    pub fn all_threads<F>(logical: &[usize], pin: F) -> (r: Result<CoreHasher, CoreHasherError>) where
        F: Fn(usize) + Send + Sync + 'static,
        requires
            forall|cpu: usize| pin.requires((cpu,)),
        ensures
            r matches Ok(h) ==> h.cpu_set() == all_threads_cpus(logical@) && h.workers()
                == pool_threads_for(thread_count(all_threads_cpus(logical@)))
                && h.worker_pins() == pins_for(all_threads_cpus(logical@), h.workers()),
            r matches Err(e) ==> e is PoolBuild,
    {
        let cpus = all_threads_cpu_set(logical);
        Self::with_cpus(cpus.as_slice(), pin)
    }

    /// Number of pinned worker threads: one per CPU of the set, at least
    /// one. The pool runs exactly that many workers, up to rayon's cap,
    /// worker `i` pinned to `pin_target_spec(cpu_set, i)`.
    pub fn threads(&self) -> (n: usize)
        ensures
            n == thread_count(self.cpu_set()),
            n >= 1,
            self.workers() == pool_threads_for(n as int),
            self.worker_pins() == pins_for(self.cpu_set(), self.workers()),
    {
        proof {
            use_type_invariant(self);
        }
        self.threads
    }

    /// Hashes an in-memory buffer with BLAKE3 tree parallelism across the
    /// whole pool. The digest is that of `blake3::hash(data)`, whatever the
    /// pool.
    pub fn hash_bytes(&self, data: &[u8]) -> (digest: [u8; 32])
        ensures
            digest == blake3_hash(data@),
    {
        let op = || -> (d: Digest)
            ensures
                d == blake3_hash(data@),
            {
                tree_hash(data)
            };
        pool_install(&self.pool, op)
    }

    /// Hashes a file from the outcome of reading it whole: its digest
    /// (tree-parallel across the pool), or the read's error.
    pub fn hash_file<E>(&self, contents: Result<Vec<u8>, E>) -> (r: Result<[u8; 32], E>)
        ensures
            r == digest_outcome(contents),
    {
        match contents {
            Ok(data) => Ok(self.hash_bytes(data.as_slice())),
            Err(e) => Err(e),
        }
    }

    /// Hashes many files, one file per thread: on the pool, each file is
    /// read with `read` and then hashed single-threaded, so slow cores
    /// simply handle fewer files. One result per path, in the order of
    /// `paths`: the digest of what was read, or the error of that read
    /// alone.
    pub fn hash_files<P, E, R>(&self, paths: &[P], read: R) -> (out: Vec<Result<Digest, E>>) where
        P: Sync,
        E: Send,
        R: Fn(&P) -> Result<Vec<u8>, E> + Sync,
        requires
            forall|p: &P| read.requires((p,)),
        ensures
            out@.len() == paths@.len(),
            forall|i: int|
                0 <= i < paths@.len() ==> #[trigger] hashed_after_read(read, &paths@[i], out@[i]),
    {
        let reader = &read;
        let job = move |p: &P| -> (r: Result<Digest, E>)
            requires
                reader.requires((p,)),
            ensures
                hashed_after_read(reader, p, r),
            {
                let c = reader(p);
                hash_outcome(c)
            };
        let batch = move || -> (digests: Vec<Result<Digest, E>>)
            requires
                forall|p: &P| reader.requires((p,)),
            ensures
                digests@.len() == paths@.len(),
                forall|i: int|
                    0 <= i < paths@.len() ==> #[trigger] hashed_after_read(
                        reader,
                        &paths@[i],
                        digests@[i],
                    ),
            {
                let hashed = par_map(paths, job);
                assert forall|i: int| 0 <= i < paths@.len() implies #[trigger] hashed_after_read(
                    reader,
                    &paths@[i],
                    hashed@[i],
                ) by {
                    assert(job.ensures((&paths@[i],), hashed@[i]));
                }
                hashed
            };
        let out = pool_install(&self.pool, batch);
        assert forall|i: int| 0 <= i < paths@.len() implies #[trigger] hashed_after_read(
            read,
            &paths@[i],
            out@[i],
        ) by {
            assert(hashed_after_read(reader, &paths@[i], out@[i]));
            let c = choose|c: Result<Vec<u8>, E>|
                reader.ensures((&paths@[i],), c) && out@[i] == digest_outcome(c);
            assert(read.ensures((&paths@[i],), c));
        }
        out
    }
}

} // verus!
