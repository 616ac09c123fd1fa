use core_blake3::{
    all_threads_cpu_set, default_cpu_set, performance_cpu_set, physical_core_leaders, pin_target,
    pool_size, topology_of, Topology,
};

#[test]
fn pool_size_is_one_per_cpu_and_at_least_one() {
    assert_eq!(pool_size(&[]), 1);
    assert_eq!(pool_size(&[9]), 1);
    assert_eq!(pool_size(&[0, 2, 4, 6]), 4);
}

#[test]
fn workers_are_dealt_round_robin() {
    let cpus = [4, 9, 2];
    assert_eq!(pin_target(&cpus, 0), Some(4));
    assert_eq!(pin_target(&cpus, 1), Some(9));
    assert_eq!(pin_target(&cpus, 2), Some(2));
    assert_eq!(pin_target(&cpus, 3), Some(4));
    assert_eq!(pin_target(&cpus, 7), Some(9));
    assert_eq!(pin_target(&[], 0), None);
    assert_eq!(pin_target(&[], 5), None);
}

#[test]
fn default_set_prefers_physical_cores() {
    assert_eq!(default_cpu_set(&[0, 2], &[0, 1, 2, 3]), vec![0, 2]);
    assert_eq!(default_cpu_set(&[], &[0, 1, 2, 3]), vec![0, 1, 2, 3]);
    assert_eq!(default_cpu_set(&[], &[]), vec![0]);
    assert_eq!(all_threads_cpu_set(&[0, 1, 2, 3]), vec![0, 1, 2, 3]);
    assert_eq!(all_threads_cpu_set(&[]), vec![0]);
}

#[test]
fn siblings_collapse_to_the_first_listed() {
    // CPUs 0/1, 2/3 and 4/5 share a core; 6 has no sibling.
    let cpus = [0, 1, 2, 3, 4, 5, 6];
    let siblings = vec![
        vec![0, 1],
        vec![0, 1],
        vec![2, 3],
        vec![2, 3],
        vec![4, 5],
        vec![4, 5],
        vec![6],
    ];
    assert_eq!(physical_core_leaders(&cpus, &siblings), vec![0, 2, 4, 6]);
    // In any CPU set: the first of each core in the order given.
    let cpus = [3, 5, 2, 6];
    let siblings = vec![vec![2, 3], vec![4, 5], vec![2, 3], vec![6]];
    assert_eq!(physical_core_leaders(&cpus, &siblings), vec![3, 5, 6]);
    // A CPU listed twice counts once.
    assert_eq!(physical_core_leaders(&[7, 7], &[vec![7], vec![7]]), vec![7]);
    assert_eq!(physical_core_leaders(&[], &[]), Vec::<usize>::new());
}

#[test]
fn hybrid_exactly_when_there_are_efficiency_cores() {
    assert_eq!(topology_of(&[12, 13]), Topology::Hybrid);
    assert_eq!(topology_of(&[]), Topology::Homogeneous);
    assert_eq!(performance_cpu_set(Topology::Hybrid, &[0, 1], &[0, 1, 2, 3]), vec![0, 1]);
    assert_eq!(performance_cpu_set(Topology::Homogeneous, &[], &[0, 1, 2, 3]), vec![0, 1, 2, 3]);
}
