# core_blake3

BLAKE3 file hashing that pins its worker threads to chosen CPUs, with the
library verified in Verus.

- `src/cpulist.rs` parses the kernel's CPU-list format (`0-3,8,10-11`)
  against a grammar stated as spec functions.
- `src/cpus.rs` holds the CPU-set decisions: which CPUs a hasher uses, how
  many threads its pool runs, which CPU each worker pins itself to, how SMT
  siblings collapse to one CPU per physical core, and the topology.
- `src/digest.rs` and `src/pool.rs` are the trusted boundary with the
  `blake3` and `rayon` crates.
- `src/hasher.rs` is `CoreHasher`: its digests are proved to be those of
  `blake3::hash`, and a batch gives one result per file, in order.
- `app/` is the command-line program: it reads sysfs, pins threads with
  `sched_setaffinity`, reads the files and prints `b3sum`-style lines.
