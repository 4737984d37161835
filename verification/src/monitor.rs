//! Resource monitoring of evaluation containers: the integer side of
//! the CPU figure and the per-container tally of memory samples.
//!
//! The CPU percentage itself is a ratio of real numbers, computed by the
//! caller from the deltas decided here.

use vstd::prelude::*;
use crate::evaluation::MonitoredContainer;

verus! {

/// How busy a container was between two Docker statistics samples.
#[derive(Clone, Copy, Debug, PartialEq, Eq, Structural)]
pub enum CpuUsage {
    /// The system clock did not advance: the usage is 0 %.
    Idle,
    /// The container used `cpu_delta` of `system_delta` (`system_delta`
    /// is positive).
    Busy { cpu_delta: u64, system_delta: u64 },
}

/// `a - b`, or 0 where `b` is larger.
pub open spec fn saturating_difference(a: u64, b: u64) -> u64 {
    if a >= b {
        (a - b) as u64
    } else {
        0
    }
}

/// The CPU usage between a previous and a current sample, or `None`
/// where one of the four counters is missing from the statistics.
pub fn cpu_usage(
    current_cpu: Option<u64>,
    previous_cpu: Option<u64>,
    current_system: Option<u64>,
    previous_system: Option<u64>,
) -> (u: Option<CpuUsage>)
    ensures
        match (current_cpu, previous_cpu, current_system, previous_system) {
            (Some(cc), Some(pc), Some(cs), Some(ps)) => u == Some(
                if saturating_difference(cs, ps) == 0 {
                    CpuUsage::Idle
                } else {
                    CpuUsage::Busy {
                        cpu_delta: saturating_difference(cc, pc),
                        system_delta: saturating_difference(cs, ps),
                    }
                },
            ),
            _ => u is None,
        },
{
    let cc = match current_cpu {
        Some(v) => v,
        None => {
            return None;
        },
    };
    let pc = match previous_cpu {
        Some(v) => v,
        None => {
            return None;
        },
    };
    let cs = match current_system {
        Some(v) => v,
        None => {
            return None;
        },
    };
    let ps = match previous_system {
        Some(v) => v,
        None => {
            return None;
        },
    };
    let cpu_delta = cc.saturating_sub(pc);
    let system_delta = cs.saturating_sub(ps);
    if system_delta == 0 {
        return Some(CpuUsage::Idle);
    }
    Some(CpuUsage::Busy { cpu_delta, system_delta })
}

/// The memory samples of one monitored container.
pub struct ResourceAccumulator {
    pub role: String,
    pub client_id: Option<i32>,
    memory_peak: u64,
    samples: u64,
}

/// Mathematical form of an accumulator.
pub struct AccumulatorView {
    pub role: Seq<char>,
    pub client_id: Option<i32>,
    pub memory_peak: u64,
    pub samples: u64,
}

impl View for ResourceAccumulator {
    type V = AccumulatorView;

    closed spec fn view(&self) -> AccumulatorView {
        AccumulatorView {
            role: self.role@,
            client_id: self.client_id,
            memory_peak: self.memory_peak,
            samples: self.samples,
        }
    }
}

impl ResourceAccumulator {
    /// An accumulator without samples.
    pub fn new(role: String, client_id: Option<i32>) -> (a: ResourceAccumulator)
        ensures
            a@ == (AccumulatorView { role: role@, client_id, memory_peak: 0, samples: 0 }),
    {
        ResourceAccumulator { role, client_id, memory_peak: 0, samples: 0 }
    }

    /// Adds a memory sample: the peak is the largest sample seen.
    pub fn add_sample(&mut self, memory_bytes: u64)
        requires
            old(self)@.samples < u64::MAX,
        ensures
            final(self)@ == (AccumulatorView {
                memory_peak: if memory_bytes > old(self)@.memory_peak {
                    memory_bytes
                } else {
                    old(self)@.memory_peak
                },
                samples: (old(self)@.samples + 1) as u64,
                ..old(self)@
            }),
    {
        if memory_bytes > self.memory_peak {
            self.memory_peak = memory_bytes;
        }
        self.samples = self.samples + 1;
    }

    /// The number of samples.
    pub fn samples(&self) -> (n: u64)
        ensures
            n == self@.samples,
    {
        self.samples
    }

    /// The largest memory sample, 0 without samples.
    pub fn memory_peak(&self) -> (m: u64)
        ensures
            m == self@.memory_peak,
    {
        self.memory_peak
    }

    /// The role of the container.
    pub fn role(&self) -> (r: &String)
        ensures
            r@ == self@.role,
    {
        &self.role
    }

    /// The client number of a client container.
    pub fn client_id(&self) -> (c: Option<i32>)
        ensures
            c == self@.client_id,
    {
        self.client_id
    }
}

/// The accumulators of the monitored containers, one per container
/// name, in the order in which their first sample came.
pub struct ResourceTally {
    entries: Vec<(String, ResourceAccumulator)>,
}

/// Mathematical form of a tally: each container name with its
/// accumulator.
pub open spec fn tally_entries(v: Seq<(String, ResourceAccumulator)>) -> Seq<
    (Seq<char>, AccumulatorView),
> {
    v.map_values(|e: (String, ResourceAccumulator)| (e.0@, e.1@))
}

/// The names of a tally's entries.
pub open spec fn tally_names(t: Seq<(Seq<char>, AccumulatorView)>) -> Seq<Seq<char>> {
    t.map_values(|e: (Seq<char>, AccumulatorView)| e.0)
}

/// The tally after a sample of `memory_bytes` for the container
/// `(name, role, client_id)`: the entry of that name takes the sample, or
/// a new entry with this one sample is added after the others.
pub open spec fn tally_after(
    t: Seq<(Seq<char>, AccumulatorView)>,
    name: Seq<char>,
    role: Seq<char>,
    client_id: Option<i32>,
    memory_bytes: u64,
) -> Seq<(Seq<char>, AccumulatorView)> {
    if exists|i: int| 0 <= i < t.len() && #[trigger] t[i].0 == name {
        let i = choose|i: int| 0 <= i < t.len() && #[trigger] t[i].0 == name;
        let a = t[i].1;
        t.update(
            i,
            (
                name,
                AccumulatorView {
                    memory_peak: if memory_bytes > a.memory_peak {
                        memory_bytes
                    } else {
                        a.memory_peak
                    },
                    samples: (a.samples + 1) as u64,
                    ..a
                },
            ),
        )
    } else {
        t.push(
            (
                name,
                AccumulatorView { role, client_id, memory_peak: memory_bytes, samples: 1 },
            ),
        )
    }
}

/// Recording a sample changes only the entry of the sampled container: a
/// new entry takes the container's role and client number, this one sample
/// and its memory as the peak; an existing entry keeps its role and client
/// number, counts one sample more and keeps the larger memory peak. Every
/// other entry stays, and names stay distinct.
pub proof fn law_tally_record(
    t: Seq<(Seq<char>, AccumulatorView)>,
    name: Seq<char>,
    role: Seq<char>,
    client_id: Option<i32>,
    memory_bytes: u64,
)
    requires
        tally_names(t).no_duplicates(),
    ensures
        tally_names(tally_after(t, name, role, client_id, memory_bytes)).no_duplicates(),
        !tally_names(t).contains(name) ==> tally_after(t, name, role, client_id, memory_bytes)
            == t.push(
            (name, AccumulatorView { role, client_id, memory_peak: memory_bytes, samples: 1 }),
        ),
        forall|i: int|
            0 <= i < t.len() && #[trigger] t[i].0 == name ==> {
                let a = t[i].1;
                tally_after(t, name, role, client_id, memory_bytes) == t.update(
                    i,
                    (
                        name,
                        AccumulatorView {
                            role: a.role,
                            client_id: a.client_id,
                            memory_peak: if memory_bytes > a.memory_peak {
                                memory_bytes
                            } else {
                                a.memory_peak
                            },
                            samples: (a.samples + 1) as u64,
                        },
                    ),
                )
            },
{
    let names = tally_names(t);
    if names.contains(name) {
        let k = choose|k: int| 0 <= k < names.len() && names[k] == name;
        assert(t[k].0 == name);
        let i = choose|i: int| 0 <= i < t.len() && #[trigger] t[i].0 == name;
        assert forall|j: int| 0 <= j < t.len() && #[trigger] t[j].0 == name implies j == i by {
            assert(names[j] == names[i]);
        }
        let t2 = tally_after(t, name, role, client_id, memory_bytes);
        assert(tally_names(t2) =~= names);
    } else {
        assert forall|i: int| 0 <= i < t.len() implies #[trigger] t[i].0 != name by {
            assert(names[i] == t[i].0);
        }
        let t2 = tally_after(t, name, role, client_id, memory_bytes);
        assert(tally_names(t2) =~= names.push(name));
    }
}

impl View for ResourceTally {
    type V = Seq<(Seq<char>, AccumulatorView)>;

    closed spec fn view(&self) -> Seq<(Seq<char>, AccumulatorView)> {
        tally_entries(self.entries@)
    }
}

impl ResourceTally {
    #[verifier::type_invariant]
    closed spec fn inv(&self) -> bool {
        &&& tally_names(tally_entries(self.entries@)).no_duplicates()
        &&& forall|i: int| 0 <= i < self.entries@.len() ==> #[trigger] self.entries@[i].1@.samples > 0
    }

    /// An empty tally.
    pub fn new() -> (t: ResourceTally)
        ensures
            t@.len() == 0,
    {
        ResourceTally { entries: Vec::new() }
    }

    /// Adds a memory sample of a container; returns the position of its
    /// entry.
    pub fn record(&mut self, container: &MonitoredContainer, memory_bytes: u64) -> (index: usize)
        requires
            forall|i: int| 0 <= i < old(self)@.len() ==> #[trigger] old(self)@[i].1.samples < u64::MAX,
        ensures
            final(self)@ == tally_after(
                old(self)@,
                container.name@,
                container.role@,
                container.client_id,
                memory_bytes,
            ),
            index < final(self)@.len(),
            final(self)@[index as int].0 == container.name@,
            !tally_names(old(self)@).contains(container.name@) ==> final(self)@[index as int].1
                == (AccumulatorView {
                role: container.role@,
                client_id: container.client_id,
                memory_peak: memory_bytes,
                samples: 1,
            }),
            tally_names(old(self)@).contains(container.name@) ==> index < old(self)@.len()
                && final(self)@[index as int].1.role == old(self)@[index as int].1.role
                && final(self)@[index as int].1.client_id == old(self)@[index as int].1.client_id,
    {
        proof {
            use_type_invariant(&*self);
        }
        let ghost t = self@;
        assert forall|j: int| 0 <= j < t.len() implies #[trigger] t[j].1.samples > 0 by {
            assert(self.entries@[j].1@.samples > 0);
        }
        let mut i: usize = 0;
        while i < self.entries.len()
            invariant
                i <= self.entries@.len(),
                t == tally_entries(self.entries@),
                forall|j: int| 0 <= j < i ==> (#[trigger] self.entries@[j]).0@ != container.name@,
            ensures
                i <= self.entries@.len(),
                forall|j: int| 0 <= j < i ==> (#[trigger] self.entries@[j]).0@ != container.name@,
                i < self.entries@.len() ==> self.entries@[i as int].0@ == container.name@,
            decreases self.entries.len() - i,
        {
            if self.entries[i].0 == container.name {
                break;
            }
            i = i + 1;
        }
        let mut entries: Vec<(String, ResourceAccumulator)> = Vec::new();
        std::mem::swap(&mut entries, &mut self.entries);
        let ghost before = entries@;
        if i < entries.len() {
            assert(t[i as int].0 == container.name@);
            assert(tally_names(t)[i as int] == container.name@);
            assert(tally_names(t).contains(container.name@));
            assert forall|k: int| 0 <= k < t.len() && #[trigger] t[k].0 == container.name@ implies k
                == i by {
                assert(tally_names(t)[k] == tally_names(t)[i as int]);
            }
            let (name, mut acc) = entries.remove(i);
            let ghost old_acc = acc@;
            acc.add_sample(memory_bytes);
            entries.insert(i, (name, acc));
            assert(tally_entries(entries@) =~= tally_after(
                t,
                container.name@,
                container.role@,
                container.client_id,
                memory_bytes,
            ));
            proof {
                assert(tally_names(tally_entries(entries@)) =~= tally_names(t));
                assert forall|j: int| 0 <= j < entries@.len() implies #[trigger] entries@[j].1@.samples
                    > 0 by {
                    assert(t[j].1.samples > 0);
                    if j != i {
                        assert(entries@[j] == before[j]);
                    }
                }
            }
            self.entries = entries;
            i
        } else {
            assert forall|k: int| 0 <= k < t.len() implies #[trigger] t[k].0 != container.name@ by {
                assert(before[k].0@ != container.name@);
            }
            let mut acc = ResourceAccumulator::new(container.role.clone(), container.client_id);
            acc.add_sample(memory_bytes);
            entries.push((container.name.clone(), acc));
            assert(tally_entries(entries@) =~= tally_after(
                t,
                container.name@,
                container.role@,
                container.client_id,
                memory_bytes,
            ));
            proof {
                assert(tally_names(tally_entries(entries@)) =~= tally_names(t).push(
                    container.name@,
                ));
                assert(!tally_names(t).contains(container.name@));
                assert forall|j: int| 0 <= j < entries@.len() implies #[trigger] entries@[j].1@.samples
                    > 0 by {
                    if j < before.len() {
                        assert(t[j].1.samples > 0);
                        assert(entries@[j] == before[j]);
                    }
                }
            }
            self.entries = entries;
            i
        }
    }

    /// The number of entries.
    pub fn len(&self) -> (n: usize)
        ensures
            n == self@.len(),
    {
        self.entries.len()
    }

    /// The accumulator of entry `i`.
    pub fn accumulator(&self, i: usize) -> (a: &ResourceAccumulator)
        requires
            i < self@.len(),
        ensures
            a@ == self@[i as int].1,
            a@.samples > 0,
    {
        proof {
            use_type_invariant(self);
        }
        &self.entries[i].1
    }

    /// The positions of the entries that have samples, in order; the
    /// measurements of these are persisted when monitoring stops.
    pub fn measured(&self) -> (positions: Vec<usize>)
        ensures
            positions@ == Seq::new(self@.len(), |i: int| i as usize).filter(
                |i: usize| self@[i as int].1.samples > 0,
            ),
            positions@ == Seq::new(self@.len(), |i: int| i as usize),
    {
        proof {
            use_type_invariant(self);
        }
        let ghost all = Seq::new(self@.len(), |i: int| i as usize);
        let mut positions: Vec<usize> = Vec::new();
        let mut i: usize = 0;
        while i < self.entries.len()
            invariant
                i <= self.entries@.len(),
                all == Seq::new(self@.len(), |i: int| i as usize),
                self@.len() == self.entries@.len(),
                positions@ == all.take(i as int).filter(
                    |i: usize| self@[i as int].1.samples > 0,
                ),
                positions@ == all.take(i as int),
                forall|j: int| 0 <= j < self.entries@.len() ==> #[trigger] self.entries@[j].1@.samples > 0,
            decreases self.entries.len() - i,
        {
            proof {
                assert(all.take(i + 1).drop_last() =~= all.take(i as int));
                assert(all.take(i + 1).last() == i);
                reveal(Seq::filter);
                assert(all.take(i as int).push(i) =~= all.take(i + 1));
            }
            if self.entries[i].1.samples() > 0 {
                positions.push(i);
            }
            i = i + 1;
        }
        assert(all.take(i as int) =~= all);
        positions
    }
}

} // verus!
