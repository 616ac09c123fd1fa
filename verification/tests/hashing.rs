use core_blake3::{CoreHasher, CoreHasherError};
use std::sync::{Arc, Mutex};
use std::time::{Duration, Instant};

/// A pinning callback that pins nothing (tests do not move their threads).
fn no_pin(_cpu: usize) {}

/// The CPUs of a machine with four physical cores of two SMT threads each.
const PHYSICAL: [usize; 4] = [0, 2, 4, 6];
const LOGICAL: [usize; 8] = [0, 1, 2, 3, 4, 5, 6, 7];

fn patterned(len: usize) -> Vec<u8> {
    (0..len).map(|i| (i % 251) as u8).collect()
}

fn reference(data: &[u8]) -> [u8; 32] {
    *blake3::hash(data).as_bytes()
}

#[test]
fn new_uses_no_more_threads_than_all_threads() {
    let new = CoreHasher::new(&PHYSICAL, &LOGICAL, no_pin).unwrap();
    let all = CoreHasher::all_threads(&LOGICAL, no_pin).unwrap();
    assert!(new.threads() <= all.threads());
    assert_eq!(new.threads(), 4);
    assert_eq!(all.threads(), 8);
}

#[test]
fn both_modes_hash_correctly() {
    let data = patterned(1 << 20);
    for h in [
        CoreHasher::new(&PHYSICAL, &LOGICAL, no_pin).unwrap(),
        CoreHasher::all_threads(&LOGICAL, no_pin).unwrap(),
    ] {
        assert_eq!(h.hash_bytes(&data), reference(&data));
    }
}

#[test]
fn hash_bytes_matches_reference_across_chunk_boundaries() {
    let hasher = CoreHasher::with_cpus(&[0, 1], no_pin).unwrap();
    for len in [0usize, 1, 1023, 1024, 1025, 1 << 20] {
        let data = patterned(len);
        assert_eq!(hasher.hash_bytes(&data), reference(&data), "len {len}");
    }
}

#[test]
fn hash_file_matches_reference_blake3() {
    let hasher = CoreHasher::with_cpus(&[0, 1], no_pin).unwrap();
    let contents: std::io::Result<Vec<u8>> = Ok(b"hello core-blake3".to_vec());
    assert_eq!(hasher.hash_file(contents).unwrap(), reference(b"hello core-blake3"));
}

#[test]
fn hash_files_matches_reference_and_preserves_order() {
    let contents: Vec<&[u8]> = vec![b"one", b"two", b"three", b"four", b"five"];
    let paths: Vec<usize> = (0..contents.len()).collect();
    let read = |p: &usize| -> std::io::Result<Vec<u8>> { Ok(contents[*p].to_vec()) };

    let results = CoreHasher::new(&PHYSICAL, &LOGICAL, no_pin).unwrap().hash_files(&paths, read);
    assert_eq!(results.len(), contents.len());
    for (result, content) in results.into_iter().zip(contents) {
        assert_eq!(result.unwrap(), reference(content));
    }
}

#[test]
fn hash_file_passes_read_error_through() {
    let hasher = CoreHasher::with_cpus(&[0], no_pin).unwrap();
    let contents: Result<Vec<u8>, String> = Err("no such file".to_string());
    assert_eq!(hasher.hash_file(contents), Err("no such file".to_string()));
}

#[test]
fn hash_files_isolates_errors_per_file() {
    let hasher = CoreHasher::with_cpus(&[0, 1, 2], no_pin).unwrap();
    let names = ["a", "missing", "c", "missing", "e"];
    let read = |name: &&str| -> Result<Vec<u8>, String> {
        if *name == "missing" {
            Err(format!("cannot read {name}"))
        } else {
            Ok(name.as_bytes().to_vec())
        }
    };
    let results = hasher.hash_files(&names, read);
    assert_eq!(results.len(), 5);
    assert_eq!(results[0], Ok(reference(b"a")));
    assert_eq!(results[1], Err("cannot read missing".to_string()));
    assert_eq!(results[2], Ok(reference(b"c")));
    assert_eq!(results[3], Err("cannot read missing".to_string()));
    assert_eq!(results[4], Ok(reference(b"e")));
}

#[test]
fn hash_files_of_nothing_is_empty() {
    let hasher = CoreHasher::with_cpus(&[], no_pin).unwrap();
    let names: [&str; 0] = [];
    let results = hasher.hash_files(&names, |_: &&str| -> Result<Vec<u8>, ()> { Ok(Vec::new()) });
    assert!(results.is_empty());
}

#[test]
fn digest_does_not_depend_on_the_pool() {
    let data = patterned(300_000);
    let one = CoreHasher::with_cpus(&[0], no_pin).unwrap();
    let many = CoreHasher::with_cpus(&[0, 1, 2, 3, 4, 5], no_pin).unwrap();
    assert_eq!(one.hash_bytes(&data), many.hash_bytes(&data));
    assert_eq!(one.hash_bytes(&data), reference(&data));
    // The empty input has the well-known BLAKE3 digest af1349b9...
    assert_eq!(one.hash_bytes(b"")[..4], [0xaf, 0x13, 0x49, 0xb9]);
    assert_ne!(one.hash_bytes(b"abc"), one.hash_bytes(b"abd"));
}

#[test]
fn thread_counts_follow_the_cpu_set() {
    assert_eq!(CoreHasher::with_cpus(&[], no_pin).unwrap().threads(), 1);
    assert_eq!(CoreHasher::with_cpus(&[3], no_pin).unwrap().threads(), 1);
    assert_eq!(CoreHasher::with_cpus(&[3, 1, 2], no_pin).unwrap().threads(), 3);
    // No physical cores known: falls back to every logical CPU.
    assert_eq!(CoreHasher::new(&[], &LOGICAL, no_pin).unwrap().threads(), 8);
    // Nothing known at all: CPU 0 alone.
    assert_eq!(CoreHasher::new(&[], &[], no_pin).unwrap().threads(), 1);
    assert_eq!(CoreHasher::all_threads(&[], no_pin).unwrap().threads(), 1);
}

fn pinned_by_pool(cpus: &[usize], expected: usize) -> Vec<usize> {
    let seen = Arc::new(Mutex::new(Vec::new()));
    let record = {
        let seen = Arc::clone(&seen);
        move |cpu: usize| seen.lock().unwrap().push(cpu)
    };
    let hasher: Result<CoreHasher, CoreHasherError> = CoreHasher::with_cpus(cpus, record);
    let hasher = hasher.unwrap();
    let start = Instant::now();
    while seen.lock().unwrap().len() < expected && start.elapsed() < Duration::from_secs(10) {
        hasher.hash_bytes(b"wake the pool");
    }
    let mut pinned = seen.lock().unwrap().clone();
    pinned.sort();
    pinned
}

#[test]
fn every_worker_pins_itself_to_one_cpu_of_the_set() {
    assert_eq!(pinned_by_pool(&[7, 3, 5], 3), vec![3, 5, 7]);
    assert_eq!(pinned_by_pool(&[2], 1), vec![2]);
    assert_eq!(pinned_by_pool(&[], 0), Vec::<usize>::new());
}

#[test]
fn start_worker_pins_round_robin() {
    let seen = Mutex::new(Vec::new());
    let record = |cpu: usize| seen.lock().unwrap().push(cpu);
    assert_eq!(core_blake3::start_worker(&[4, 9, 2], &record, 0), Some(4));
    assert_eq!(core_blake3::start_worker(&[4, 9, 2], &record, 2), Some(2));
    assert_eq!(core_blake3::start_worker(&[4, 9, 2], &record, 4), Some(9));
    assert_eq!(core_blake3::start_worker(&[], &record, 0), None);
    assert_eq!(*seen.lock().unwrap(), vec![4, 2, 9]);
}

#[test]
fn from_build_keeps_the_pool_or_passes_the_error_through() {
    let built = rayon::ThreadPoolBuilder::new()
        .num_threads(2)
        .start_handler(|index| {
            core_blake3::start_worker(&[0, 1], &no_pin, index);
        })
        .build();
    let hasher = CoreHasher::from_build(built, &[0, 1]).unwrap();
    assert_eq!(hasher.threads(), 2);
    assert_eq!(hasher.hash_bytes(b"abc"), reference(b"abc"));
}

#[test]
fn all_threads_runs_more_threads_than_new_with_smt() {
    let siblings: Vec<Vec<usize>> = LOGICAL.iter().map(|c| vec![c & !1, c | 1]).collect();
    let physical = core_blake3::physical_core_leaders(&LOGICAL, &siblings);
    assert_eq!(physical, PHYSICAL.to_vec());
    let new = CoreHasher::new(&physical, &LOGICAL, no_pin).unwrap();
    let all = CoreHasher::all_threads(&LOGICAL, no_pin).unwrap();
    assert!(new.threads() < all.threads());
}

#[test]
fn batch_of_concatenated_paths_is_the_batches_in_turn() {
    let hasher = CoreHasher::with_cpus(&[0, 1, 2], no_pin).unwrap();
    let read = |name: &&str| -> Result<Vec<u8>, String> {
        if name.starts_with('x') { Err(format!("unreadable {name}")) } else { Ok(name.as_bytes().to_vec()) }
    };
    let a = ["alpha", "xbeta", "gamma"];
    let b = ["delta", "xeps"];
    let both: Vec<&str> = a.iter().chain(b.iter()).copied().collect();
    let mut expected = hasher.hash_files(&a, read);
    expected.extend(hasher.hash_files(&b, read));
    assert_eq!(hasher.hash_files(&both, read), expected);
}

#[test]
fn batch_equals_file_by_file() {
    let hasher = CoreHasher::with_cpus(&[0, 1], no_pin).unwrap();
    let names = ["one", "two", "xthree", "four"];
    let read = |name: &&str| -> Result<Vec<u8>, String> {
        if name.starts_with('x') { Err(format!("unreadable {name}")) } else { Ok(name.as_bytes().to_vec()) }
    };
    let one_by_one: Vec<Result<[u8; 32], String>> = names.iter().map(|n| hasher.hash_file(read(n))).collect();
    assert_eq!(hasher.hash_files(&names, read), one_by_one);
}
