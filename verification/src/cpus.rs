//! Decisions about which CPUs the hashing pool uses.

use vstd::prelude::*;

verus! {

/// Number of worker threads for a pool pinned to `cpus`: one per CPU, and
/// never fewer than one.
pub open spec fn thread_count(cpus: Seq<usize>) -> int {
    if cpus.len() == 0 { 1 } else { cpus.len() as int }
}

/// The CPU that the worker thread with the given index is pinned to, if any:
/// the threads are dealt out over `cpus` in round-robin order.
pub open spec fn pin_target_spec(cpus: Seq<usize>, index: int) -> Option<usize> {
    if cpus.len() == 0 { None } else { Some(cpus[index % (cpus.len() as int)]) }
}

/// How many worker threads a pool pinned to `cpus` runs.
pub fn pool_size(cpus: &[usize]) -> (n: usize)
    ensures
        cpus@.len() > 0 ==> n == cpus@.len(),
        cpus@.len() == 0 ==> n == 1,
        n == thread_count(cpus@),
        n >= 1,
{
    if cpus.len() == 0 { 1 } else { cpus.len() }
}

/// The CPU to which the worker thread numbered `index` pins itself.
pub fn pin_target(cpus: &[usize], index: usize) -> (cpu: Option<usize>)
    ensures
        cpus@.len() > 0 ==> cpu == Some(cpus@[index as int % cpus@.len() as int]),
        cpus@.len() == 0 ==> cpu is None,
        cpu == pin_target_spec(cpus@, index as int),
{
    if cpus.len() == 0 {
        None
    } else {
        Some(cpus[index % cpus.len()])
    }
}

/// The CPUs of a hasher with one thread per logical CPU: every logical CPU,
/// or CPU 0 alone if none could be read.
pub open spec fn all_threads_cpus(logical: Seq<usize>) -> Seq<usize> {
    if logical.len() == 0 { seq![0usize] } else { logical }
}

/// The CPUs of the default hasher: one per physical core, or, if the
/// physical cores could not be read, those of `all_threads_cpus`.
pub open spec fn default_cpus(physical: Seq<usize>, logical: Seq<usize>) -> Seq<usize> {
    if physical.len() == 0 { all_threads_cpus(logical) } else { physical }
}

/// The CPU set for one thread per logical CPU.
pub fn all_threads_cpu_set(logical: &[usize]) -> (cpus: Vec<usize>)
    ensures
        logical@.len() > 0 ==> cpus@ == logical@,
        logical@.len() == 0 ==> cpus@ == seq![0usize],
        cpus@ == all_threads_cpus(logical@),
{
    if logical.len() == 0 {
        vec![0]
    } else {
        vstd::slice::slice_to_vec(logical)
    }
}

/// The CPU set for one thread per physical core, falling back to one thread
/// per logical CPU when the physical cores are unknown.
pub fn default_cpu_set(physical: &[usize], logical: &[usize]) -> (cpus: Vec<usize>)
    ensures
        physical@.len() > 0 ==> cpus@ == physical@,
        physical@.len() == 0 && logical@.len() > 0 ==> cpus@ == logical@,
        physical@.len() == 0 && logical@.len() == 0 ==> cpus@ == seq![0usize],
        cpus@ == default_cpus(physical@, logical@),
{
    if physical.len() == 0 {
        all_threads_cpu_set(logical)
    } else {
        vstd::slice::slice_to_vec(physical)
    }
}

/// The default hasher never runs more threads than the one with a thread
/// per logical CPU, given that there are no more physical cores than
/// logical CPUs.
pub proof fn lemma_default_threads_at_most_all_threads(physical: Seq<usize>, logical: Seq<usize>)
    requires
        physical.len() <= logical.len(),
    ensures
        thread_count(default_cpus(physical, logical)) <= thread_count(all_threads_cpus(logical)),
{
}

/// Every worker thread is pinned to a CPU of the set, and every CPU of the
/// set receives the thread whose index is its position: a pool of
/// `thread_count(cpus)` threads covers the whole set.
pub proof fn lemma_pinning_covers_set(cpus: Seq<usize>)
    ensures
        forall|index: int| 0 <= index && cpus.len() > 0 ==> (#[trigger] pin_target_spec(cpus, index)
            is Some && cpus.contains(pin_target_spec(cpus, index).unwrap())),
        forall|k: int| 0 <= k < cpus.len() ==> k < thread_count(cpus) && #[trigger] pin_target_spec(cpus, k) == Some(cpus[k]),
        cpus.len() == 0 ==> forall|index: int| #[trigger] pin_target_spec(cpus, index) is None,
{
    assert forall|index: int| 0 <= index && cpus.len() > 0 implies (#[trigger] pin_target_spec(cpus, index)
        is Some && cpus.contains(pin_target_spec(cpus, index).unwrap())) by {
        let k = index % (cpus.len() as int);
        assert(0 <= k < cpus.len());
        assert(cpus.contains(cpus[k]));
    }
    assert forall|k: int| 0 <= k < cpus.len() implies k < thread_count(cpus) && #[trigger] pin_target_spec(cpus, k) == Some(cpus[k]) by {
        assert(k % (cpus.len() as int) == k) by (nonlinear_arith)
            requires 0 <= k < cpus.len();
    }
}

/// `cpus[i]` leads its physical core within `cpus`: no CPU listed before it
/// is one of its SMT siblings (`siblings[i]`, which lists the logical CPUs
/// that share a physical core with `cpus[i]`).
pub open spec fn leads_core(cpus: Seq<usize>, siblings: Seq<Seq<usize>>, i: int) -> bool {
    forall|j: int| 0 <= j < i ==> !siblings[i].contains(#[trigger] cpus[j])
}

/// The CPUs of `cpus` that lead their physical cores, in their order.
pub open spec fn core_leaders(cpus: Seq<usize>, siblings: Seq<Seq<usize>>) -> Seq<usize>
    decreases cpus.len(),
{
    if cpus.len() == 0 {
        Seq::empty()
    } else {
        let i = cpus.len() - 1;
        let prev = core_leaders(cpus.drop_last(), siblings.drop_last());
        if leads_core(cpus, siblings, i) {
            prev.push(cpus[i])
        } else {
            prev
        }
    }
}

/// The leaders are CPUs of the set, at most one per CPU listed.
pub proof fn lemma_core_leaders_within(cpus: Seq<usize>, siblings: Seq<Seq<usize>>)
    ensures
        core_leaders(cpus, siblings).len() <= cpus.len(),
        forall|i: int|
            0 <= i < core_leaders(cpus, siblings).len() ==> cpus.contains(
                #[trigger] core_leaders(cpus, siblings)[i],
            ),
    decreases cpus.len(),
{
    if cpus.len() > 0 {
        let rest = cpus.drop_last();
        let prev = core_leaders(rest, siblings.drop_last());
        lemma_core_leaders_within(rest, siblings.drop_last());
        let all = core_leaders(cpus, siblings);
        assert forall|i: int| 0 <= i < all.len() implies cpus.contains(#[trigger] all[i]) by {
            if i < prev.len() {
                assert(all[i] == prev[i]);
                let k = choose|k: int| 0 <= k < rest.len() && rest[k] == prev[i];
                assert(cpus[k] == rest[k]);
            } else {
                assert(all[i] == cpus[cpus.len() - 1]);
            }
        }
    }
}

/// With the physical cores taken as the leaders of the logical CPUs, the
/// default hasher never runs more threads than the one with a thread per
/// logical CPU.
pub proof fn lemma_default_threads_at_most_all_threads_for_leaders(
    logical: Seq<usize>,
    siblings: Seq<Seq<usize>>,
)
    ensures
        thread_count(default_cpus(core_leaders(logical, siblings), logical)) <= thread_count(
            all_threads_cpus(logical),
        ),
{
    lemma_core_leaders_within(logical, siblings);
    lemma_default_threads_at_most_all_threads(core_leaders(logical, siblings), logical);
}

/// The first CPU listed always leads its core, so a nonempty set keeps at
/// least one leader.
pub proof fn lemma_core_leaders_nonempty(cpus: Seq<usize>, siblings: Seq<Seq<usize>>)
    requires
        cpus.len() > 0,
    ensures
        core_leaders(cpus, siblings).len() >= 1,
    decreases cpus.len(),
{
    if cpus.len() > 1 {
        lemma_core_leaders_nonempty(cpus.drop_last(), siblings.drop_last());
    } else {
        assert(leads_core(cpus, siblings, 0));
    }
}

/// A CPU that shares its core with one listed before it is dropped, so the
/// leaders are strictly fewer than the CPUs.
pub proof fn lemma_core_leaders_drop_siblings(cpus: Seq<usize>, siblings: Seq<Seq<usize>>, i: int)
    requires
        siblings.len() == cpus.len(),
        0 <= i < cpus.len(),
        !leads_core(cpus, siblings, i),
    ensures
        core_leaders(cpus, siblings).len() < cpus.len(),
    decreases cpus.len(),
{
    let rest = cpus.drop_last();
    let srest = siblings.drop_last();
    lemma_core_leaders_within(rest, srest);
    if i < cpus.len() - 1 {
        let j = choose|j: int| 0 <= j < i && siblings[i].contains(#[trigger] cpus[j]);
        assert(rest[j] == cpus[j]);
        assert(srest[i] == siblings[i]);
        assert(!leads_core(rest, srest, i));
        lemma_core_leaders_drop_siblings(rest, srest, i);
    }
}

/// When some core exposes two or more of the logical CPUs (SMT), the
/// hasher with a thread per logical CPU runs strictly more threads than the
/// default one, whose CPUs are the leaders of the logical CPUs.
pub proof fn lemma_all_threads_exceed_default_with_smt(
    logical: Seq<usize>,
    siblings: Seq<Seq<usize>>,
    i: int,
)
    requires
        siblings.len() == logical.len(),
        0 <= i < logical.len(),
        !leads_core(logical, siblings, i),
    ensures
        thread_count(default_cpus(core_leaders(logical, siblings), logical)) < thread_count(
            all_threads_cpus(logical),
        ),
{
    lemma_core_leaders_nonempty(logical, siblings);
    lemma_core_leaders_drop_siblings(logical, siblings, i);
}

/// The views of a slice of vectors.
pub open spec fn views(v: Seq<Vec<usize>>) -> Seq<Seq<usize>> {
    v.map_values(|x: Vec<usize>| x@)
}

fn contains(v: &[usize], x: usize) -> (r: bool)
    ensures
        r == v@.contains(x),
{
    let mut i: usize = 0;
    while i < v.len()
        invariant
            0 <= i <= v@.len(),
            forall|j: int| 0 <= j < i ==> v@[j] != x,
        decreases v@.len() - i,
    {
        if v[i] == x {
            return true;
        }
        i += 1;
    }
    false
}

/// Collapses SMT siblings: keeps one logical CPU per physical core, the
/// first that `cpus` lists. `siblings[i]` lists the logical CPUs that share
/// a physical core with `cpus[i]`.
pub fn physical_core_leaders(cpus: &[usize], siblings: &[Vec<usize>]) -> (leaders: Vec<usize>)
    requires
        siblings@.len() == cpus@.len(),
    ensures
        leaders@ == core_leaders(cpus@, views(siblings@)),
{
    let ghost sibs = views(siblings@);
    let mut leaders: Vec<usize> = Vec::new();
    let mut i: usize = 0;
    while i < cpus.len()
        invariant
            0 <= i <= cpus@.len() == siblings@.len(),
            sibs == views(siblings@),
            leaders@ == core_leaders(cpus@.take(i as int), sibs.take(i as int)),
        decreases cpus@.len() - i,
    {
        let mut leads = true;
        let mut j: usize = 0;
        while j < i
            invariant
                0 <= j <= i < cpus@.len() == siblings@.len(),
                sibs == views(siblings@),
                leads == (forall|k: int| 0 <= k < j ==> !sibs[i as int].contains(#[trigger] cpus@[k])),
            decreases i - j,
        {
            if contains(siblings[i].as_slice(), cpus[j]) {
                leads = false;
            }
            j += 1;
        }
        proof {
            let c = cpus@.take(i + 1);
            let s = sibs.take(i + 1);
            assert(c.drop_last() =~= cpus@.take(i as int));
            assert(s.drop_last() =~= sibs.take(i as int));
            assert(s[i as int] == sibs[i as int]);
            if leads {
                assert forall|k: int| 0 <= k < i implies !s[i as int].contains(#[trigger] c[k]) by {
                    assert(c[k] == cpus@[k]);
                }
            } else {
                let k = choose|k: int| 0 <= k < i && sibs[i as int].contains(#[trigger] cpus@[k]);
                assert(c[k] == cpus@[k]);
            }
            assert(leads == leads_core(c, s, i as int));
        }
        if leads {
            leaders.push(cpus[i]);
        }
        i += 1;
    }
    assert(cpus@.take(i as int) =~= cpus@);
    assert(sibs.take(i as int) =~= sibs);
    leaders
}

/// What the worker thread with the given index does when it starts, in a
/// pool built for `cpus`: it pins itself with `pin` to
/// `pin_target(cpus, index)` (`cpus[index % cpus.len()]`), and makes no
/// call when `cpus` is empty. Returns the CPU it pinned to.
pub fn start_worker<F: Fn(usize)>(cpus: &[usize], pin: &F, index: usize) -> (pinned: Option<usize>)
    requires
        forall|cpu: usize| pin.requires((cpu,)),
    ensures
        pinned == pin_target_spec(cpus@, index as int),
        pinned matches Some(cpu) ==> pin.ensures((cpu,), ()),
{
    let target = pin_target(cpus, index);
    match target {
        Some(cpu) => {
            pin(cpu);
        },
        None => {},
    }
    target
}

/// Whether the machine mixes performance and efficiency cores.
#[derive(Debug, Clone, Copy, PartialEq, Eq, Structural)]
pub enum Topology {
    /// Performance and efficiency cores (Intel P/E cores and the like).
    Hybrid,
    /// Every core of one kind.
    Homogeneous,
}

/// The topology of a machine whose efficiency cores are `efficiency`: it
/// is hybrid exactly when it has efficiency cores.
pub open spec fn topology_spec(efficiency: Seq<usize>) -> Topology {
    if efficiency.len() > 0 { Topology::Hybrid } else { Topology::Homogeneous }
}

/// Classifies a machine by its efficiency cores.
pub fn topology_of(efficiency: &[usize]) -> (t: Topology)
    ensures
        (t == Topology::Hybrid) == (efficiency@.len() > 0),
        (t == Topology::Homogeneous) == (efficiency@.len() == 0),
        t == topology_spec(efficiency@),
{
    if efficiency.len() > 0 {
        Topology::Hybrid
    } else {
        Topology::Homogeneous
    }
}

/// The performance cores: on a hybrid machine those that the system lists
/// as such (`listed`); on a homogeneous one every logical CPU.
pub open spec fn performance_cpus_spec(t: Topology, listed: Seq<usize>, logical: Seq<usize>) -> Seq<usize> {
    match t {
        Topology::Hybrid => listed,
        Topology::Homogeneous => logical,
    }
}

/// The performance cores of a machine of topology `t`.
pub fn performance_cpu_set(t: Topology, listed: &[usize], logical: &[usize]) -> (cpus: Vec<usize>)
    ensures
        t == Topology::Hybrid ==> cpus@ == listed@,
        t == Topology::Homogeneous ==> cpus@ == logical@,
        cpus@ == performance_cpus_spec(t, listed@, logical@),
{
    match t {
        Topology::Hybrid => vstd::slice::slice_to_vec(listed),
        Topology::Homogeneous => vstd::slice::slice_to_vec(logical),
    }
}

/// The CPU sets the hashers use: the default one runs on exactly the
/// physical cores when they are known, and otherwise, like the one with a
/// thread per logical CPU, on exactly the logical CPUs, or on CPU 0 alone
/// when nothing is known. So each of them runs one thread per CPU listed.
pub proof fn lemma_cpu_sets(physical: Seq<usize>, logical: Seq<usize>)
    ensures
        physical.len() > 0 ==> default_cpus(physical, logical) == physical && thread_count(
            default_cpus(physical, logical),
        ) == physical.len(),
        physical.len() == 0 ==> default_cpus(physical, logical) == all_threads_cpus(logical),
        logical.len() > 0 ==> all_threads_cpus(logical) == logical && thread_count(
            all_threads_cpus(logical),
        ) == logical.len(),
        logical.len() == 0 ==> all_threads_cpus(logical) == seq![0usize] && thread_count(
            all_threads_cpus(logical),
        ) == 1,
{
}

/// A machine is hybrid exactly when it has efficiency cores, however many;
/// its performance cores are then those listed, and otherwise every
/// logical CPU.
pub proof fn lemma_topology(efficiency: Seq<usize>, listed: Seq<usize>, logical: Seq<usize>)
    ensures
        (topology_spec(efficiency) == Topology::Hybrid) == (efficiency.len() > 0),
        efficiency.len() > 0 ==> performance_cpus_spec(topology_spec(efficiency), listed, logical)
            == listed,
        efficiency.len() == 0 ==> performance_cpus_spec(topology_spec(efficiency), listed, logical)
            == logical,
{
}

/// With no CPU listed twice, a CPU is kept exactly when none of the CPUs
/// listed before it is one of its siblings: every CPU that shares its core
/// with an earlier one is collapsed, wherever it stands in the list.
pub proof fn lemma_core_leaders_membership(cpus: Seq<usize>, siblings: Seq<Seq<usize>>)
    requires
        siblings.len() == cpus.len(),
        cpus.no_duplicates(),
    ensures
        forall|i: int|
            0 <= i < cpus.len() ==> (#[trigger] core_leaders(cpus, siblings).contains(cpus[i]) <==> (
            forall|j: int| 0 <= j < i ==> !siblings[i].contains(cpus[j]))),
    decreases cpus.len(),
{
    if cpus.len() > 0 {
        let n = cpus.len() - 1;
        let rest = cpus.drop_last();
        let srest = siblings.drop_last();
        let prev = core_leaders(rest, srest);
        let all = core_leaders(cpus, siblings);
        assert(rest.no_duplicates()) by {
            assert forall|a: int, b: int| 0 <= a < rest.len() && 0 <= b < rest.len() && a != b implies rest[a] != rest[b] by {
                assert(rest[a] == cpus[a] && rest[b] == cpus[b]);
            }
        }
        lemma_core_leaders_membership(rest, srest);
        lemma_core_leaders_within(rest, srest);
        // The last CPU is not among the earlier leaders.
        assert(!prev.contains(cpus[n])) by {
            if prev.contains(cpus[n]) {
                let k = choose|k: int| 0 <= k < prev.len() && prev[k] == cpus[n];
                assert(rest.contains(prev[k]));
                let m = choose|m: int| 0 <= m < rest.len() && rest[m] == prev[k];
                assert(cpus[m] == rest[m]);
            }
        }
        assert forall|i: int| 0 <= i < cpus.len() implies (#[trigger] all.contains(cpus[i]) <==> (forall|j: int|
            0 <= j < i ==> !siblings[i].contains(cpus[j]))) by {
            if i < n {
                assert(rest[i] == cpus[i]);
                assert(srest[i] == siblings[i]);
                assert((forall|j: int| 0 <= j < i ==> !siblings[i].contains(cpus[j])) <==> (forall|j: int|
                    0 <= j < i ==> !srest[i].contains(rest[j]))) by {
                    assert forall|j: int| 0 <= j < i implies rest[j] == cpus[j] by {}
                }
                assert(prev.contains(cpus[i]) == prev.contains(rest[i]));
                if leads_core(cpus, siblings, n) {
                    assert(all == prev.push(cpus[n]));
                    assert(cpus[i] != cpus[n]);
                    if all.contains(cpus[i]) {
                        let k = choose|k: int| 0 <= k < all.len() && all[k] == cpus[i];
                        assert(k < prev.len());
                        assert(prev[k] == all[k]);
                    }
                    if prev.contains(cpus[i]) {
                        let k = choose|k: int| 0 <= k < prev.len() && prev[k] == cpus[i];
                        assert(all[k] == prev[k]);
                    }
                }
            } else {
                if leads_core(cpus, siblings, n) {
                    assert(all == prev.push(cpus[n]));
                    assert(all[prev.len() as int] == cpus[n]);
                } else {
                    let j = choose|j: int| 0 <= j < n && siblings[n].contains(#[trigger] cpus[j]);
                }
            }
        }
    }
}

} // verus!
