//! Core-aware BLAKE3 hashing: the CPU-set decisions, the parsing of kernel
//! CPU lists, and a hasher whose worker pool is pinned to chosen CPUs.
//!
//! The hashing itself is the `blake3` crate and the worker pool is a `rayon`
//! thread pool; this crate decides where the work runs and proves that the
//! digests it hands back are exactly those of `blake3::hash`.

pub mod cpulist;
pub mod cpus;
pub mod digest;
pub mod hasher;
pub mod pool;

pub use cpulist::{parse_cpu_list, MAX_CPU_ID};
pub use cpus::{
    all_threads_cpu_set, default_cpu_set, performance_cpu_set, physical_core_leaders, pin_target,
    pool_size, start_worker, topology_of, Topology,
};
pub use digest::Digest;
pub use hasher::{CoreHasher, CoreHasherError};
