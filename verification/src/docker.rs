//! Bookkeeping for the Docker panel: CPU deltas between two readings of a
//! container, the table of previous readings, and the naming of containers.
use vstd::prelude::*;
use crate::text::{contains, first_chars, has_substring, strip_leading, take_chars, trim_leading};

verus! {

/// How many characters of a container id make its short id.
pub const SHORT_ID_LEN: usize = 12;

/// `a - b`, or 0 when `b` exceeds `a`.
pub open spec fn saturating_diff(a: u64, b: u64) -> u64 {
    if a >= b {
        (a - b) as u64
    } else {
        0
    }
}

/// What the CPU percentage of a container is computed from: the growth of
/// its CPU time and of the host's CPU time since the previous reading, and
/// the number of online CPUs. The percentage is
/// `cpu_delta / system_delta * online_cpus * 100`.
#[derive(Debug, Clone, Copy, PartialEq, Eq, Structural)]
pub struct CpuDeltas {
    pub cpu_delta: u64,
    pub system_delta: u64,
    pub online_cpus: u64,
}

/// The deltas for a reading, given the previous reading `(cpu_total,
/// system_cpu)`: none without a previous reading or when the host's CPU
/// time did not grow (the percentage is then 0); a counter that went
/// backwards counts as no growth.
pub open spec fn deltas_of(cpu_total: u64, system_cpu: u64, online_cpus: u64, prev: Option<
    (u64, u64),
>) -> Option<CpuDeltas> {
    match prev {
        None => None,
        Some(p) => if saturating_diff(system_cpu, p.1) == 0 {
            None
        } else {
            Some(
                CpuDeltas {
                    cpu_delta: saturating_diff(cpu_total, p.0),
                    system_delta: saturating_diff(system_cpu, p.1),
                    online_cpus,
                },
            )
        },
    }
}

/// The deltas for a reading; see `deltas_of`.
pub fn cpu_usage_deltas(cpu_total: u64, system_cpu: u64, online_cpus: u64, prev: Option<(u64, u64)>) -> (r:
    Option<CpuDeltas>)
    ensures
        r == deltas_of(cpu_total, system_cpu, online_cpus, prev),
        r matches Some(d) ==> d.system_delta > 0,
{
    match prev {
        None => None,
        Some((prev_cpu, prev_system)) => {
            let cpu_delta = if cpu_total >= prev_cpu {
                cpu_total - prev_cpu
            } else {
                0
            };
            let system_delta = if system_cpu >= prev_system {
                system_cpu - prev_system
            } else {
                0
            };
            if system_delta == 0 {
                None
            } else {
                Some(CpuDeltas { cpu_delta, system_delta, online_cpus })
            }
        },
    }
}

/// The previous `(cpu_total, system_cpu)` reading of each container, by id.
pub struct CpuSampleTable {
    entries: Vec<(String, (u64, u64))>,
}

impl CpuSampleTable {
    /// No two entries share an id.
    #[verifier::type_invariant]
    spec fn ids_distinct(self) -> bool {
        forall|i: int, j: int|
            0 <= i < j < self.entries@.len() ==> #[trigger] self.entries@[i].0@
                != #[trigger] self.entries@[j].0@
    }

    /// Some entry has id `k`.
    spec fn holds(entries: Seq<(String, (u64, u64))>, k: Seq<char>) -> bool {
        exists|i: int| 0 <= i < entries.len() && #[trigger] entries[i].0@ == k
    }

    /// The table as a map from container id to its previous reading.
    pub closed spec fn view(&self) -> Map<Seq<char>, (u64, u64)> {
        Self::map_of(self.entries@)
    }

    spec fn map_of(entries: Seq<(String, (u64, u64))>) -> Map<Seq<char>, (u64, u64)> {
        Map::new(
            |k: Seq<char>| Self::holds(entries, k),
            |k: Seq<char>|
                entries[choose|i: int| 0 <= i < entries.len() && #[trigger] entries[i].0@ == k].1,
        )
    }

    /// The entry at `i` is what the map holds for its id.
    proof fn lemma_entry(entries: Seq<(String, (u64, u64))>, i: int)
        requires
            0 <= i < entries.len(),
            forall|a: int, b: int|
                0 <= a < b < entries.len() ==> #[trigger] entries[a].0@ != #[trigger] entries[b].0@,
        ensures
            Self::map_of(entries).contains_key(entries[i].0@),
            Self::map_of(entries)[entries[i].0@] == entries[i].1,
    {
        let k = entries[i].0@;
        assert(Self::holds(entries, k));
        let j = choose|j: int| 0 <= j < entries.len() && #[trigger] entries[j].0@ == k;
        if j < i {
            assert(entries[j].0@ != entries[i].0@);
        } else if i < j {
            assert(entries[i].0@ != entries[j].0@);
        }
    }

    /// An empty table.
    pub fn new() -> (r: CpuSampleTable)
        ensures
            r@ == Map::<Seq<char>, (u64, u64)>::empty(),
    {
        let r = CpuSampleTable { entries: Vec::new() };
        assert(r@ =~= Map::<Seq<char>, (u64, u64)>::empty());
        r
    }

    /// Where the entry for `id` stands, if there is one.
    fn find(&self, id: &String) -> (r: Option<usize>)
        ensures
            r matches Some(i) ==> i < self.entries@.len() && self.entries@[i as int].0@ == id@,
            r is None ==> forall|i: int|
                0 <= i < self.entries@.len() ==> #[trigger] self.entries@[i].0@ != id@,
    {
        let mut i: usize = 0;
        while i < self.entries.len()
            invariant
                i <= self.entries@.len(),
                forall|j: int| 0 <= j < i ==> #[trigger] self.entries@[j].0@ != id@,
            decreases self.entries.len() - i,
        {
            if self.entries[i].0 == *id {
                return Some(i);
            }
            i = i + 1;
        }
        None
    }

    /// The previous reading of container `id`, if the table holds one.
    pub fn get(&self, id: &String) -> (r: Option<(u64, u64)>)
        ensures
            r == if self@.contains_key(id@) {
                Some(self@[id@])
            } else {
                None::<(u64, u64)>
            },
    {
        proof {
            use_type_invariant(self);
        }
        match self.find(id) {
            Some(i) => {
                proof {
                    Self::lemma_entry(self.entries@, i as int);
                }
                Some(self.entries[i].1)
            },
            None => None,
        }
    }

    /// Records `sample` as the previous reading of container `id`,
    /// replacing any earlier one.
    pub fn insert(&mut self, id: String, sample: (u64, u64))
        ensures
            final(self)@ == old(self)@.insert(id@, sample),
    {
        proof {
            use_type_invariant(&*self);
        }
        let ghost old_map = self@;
        let found = self.find(&id);
        let mut entries: Vec<(String, (u64, u64))> = Vec::new();
        std::mem::swap(&mut entries, &mut self.entries);
        let ghost e1 = entries@;
        match found {
            Some(i) => {
                entries.remove(i);
                proof {
                    assert forall|j: int| 0 <= j < e1.len() && j != i implies #[trigger] e1[j].0@
                        != id@ by {
                        if j < i {
                            assert(e1[j].0@ != e1[i as int].0@);
                        } else {
                            assert(e1[i as int].0@ != e1[j].0@);
                        }
                    }
                    assert forall|a: int, b: int|
                        0 <= a < b < entries@.len() implies #[trigger] entries@[a].0@
                        != #[trigger] entries@[b].0@ by {
                        let a0 = if a < i { a } else { a + 1 };
                        let b0 = if b < i { b } else { b + 1 };
                        assert(entries@[a] == e1[a0] && entries@[b] == e1[b0]);
                        assert(e1[a0].0@ != e1[b0].0@);
                    }
                    assert forall|j: int| 0 <= j < entries@.len() implies #[trigger] entries@[j].0@
                        != id@ by {
                        let j0 = if j < i { j } else { j + 1 };
                        assert(entries@[j] == e1[j0]);
                    }
                }
            },
            None => {},
        }
        let ghost e2 = entries@;
        assert(forall|j: int| 0 <= j < e2.len() ==> #[trigger] e2[j].0@ != id@);
        entries.push((id, sample));
        let ghost e3 = entries@;
        proof {
            assert forall|a: int, b: int| 0 <= a < b < e3.len() implies #[trigger] e3[a].0@
                != #[trigger] e3[b].0@ by {
                if b == e3.len() - 1 {
                    assert(e3[a] == e2[a]);
                } else {
                    assert(e3[a] == e2[a] && e3[b] == e2[b]);
                }
            }
            let m3 = Self::map_of(e3);
            let target = old_map.insert(id@, sample);
            assert forall|k: Seq<char>| #[trigger] m3.contains_key(k) == target.contains_key(k) by {
                if m3.contains_key(k) {
                    let j = choose|j: int| 0 <= j < e3.len() && #[trigger] e3[j].0@ == k;
                    if k != id@ {
                        assert(j < e2.len());
                        assert(e3[j] == e2[j]);
                        let j1 = if j < found->0 { j } else { j + 1 };
                        if found is Some {
                            assert(e2[j] == e1[j1]);
                            assert(Self::holds(e1, k));
                        } else {
                            assert(Self::holds(e1, k));
                        }
                    }
                }
                if target.contains_key(k) && k != id@ {
                    assert(Self::holds(e1, k));
                    let j = choose|j: int| 0 <= j < e1.len() && #[trigger] e1[j].0@ == k;
                    if found is Some {
                        let fi = found->0 as int;
                        assert(j != fi);
                        let j2 = if j < fi { j } else { j - 1 };
                        assert(e2[j2] == e1[j]);
                        assert(e3[j2] == e2[j2]);
                        assert(Self::holds(e3, k));
                    } else {
                        assert(e3[j] == e1[j]);
                        assert(Self::holds(e3, k));
                    }
                }
                if k == id@ {
                    assert(e3[e3.len() - 1].0@ == id@);
                    assert(Self::holds(e3, k));
                }
            }
            assert forall|k: Seq<char>| #[trigger] m3.contains_key(k) implies m3[k] == target[k] by {
                let j = choose|j: int| 0 <= j < e3.len() && #[trigger] e3[j].0@ == k;
                Self::lemma_entry(e3, j);
                if k == id@ {
                    Self::lemma_entry(e3, e3.len() - 1);
                } else {
                    assert(j < e2.len());
                    assert(e3[j] == e2[j]);
                    if found is Some {
                        let fi = found->0 as int;
                        let j1 = if j < fi { j } else { j + 1 };
                        assert(e2[j] == e1[j1]);
                        Self::lemma_entry(e1, j1);
                    } else {
                        Self::lemma_entry(e1, j);
                    }
                }
            }
            assert(m3 =~= target);
        }
        self.entries = entries;
    }

    /// Forgets the previous reading of container `id`.
    pub fn remove(&mut self, id: &String)
        ensures
            final(self)@ == old(self)@.remove(id@),
    {
        proof {
            use_type_invariant(&*self);
        }
        match self.find(id) {
            None => {
                assert(self@ =~= self@.remove(id@));
            },
            Some(i) => {
                let ghost old_map = self@;
                let ghost e1 = self.entries@;
                let mut entries: Vec<(String, (u64, u64))> = Vec::new();
                std::mem::swap(&mut entries, &mut self.entries);
                entries.remove(i);
                let ghost e2 = entries@;
                proof {
                    assert forall|a: int, b: int| 0 <= a < b < e2.len() implies #[trigger] e2[a].0@
                        != #[trigger] e2[b].0@ by {
                        let a0 = if a < i { a } else { a + 1 };
                        let b0 = if b < i { b } else { b + 1 };
                        assert(e2[a] == e1[a0] && e2[b] == e1[b0]);
                    }
                    let m2 = Self::map_of(e2);
                    let target = old_map.remove(id@);
                    assert forall|k: Seq<char>| #[trigger] m2.contains_key(k) == target.contains_key(
                        k,
                    ) by {
                        if m2.contains_key(k) {
                            let j = choose|j: int| 0 <= j < e2.len() && #[trigger] e2[j].0@ == k;
                            let j1 = if j < i { j } else { j + 1 };
                            assert(e2[j] == e1[j1]);
                            assert(Self::holds(e1, k));
                            assert(e1[j1].0@ != e1[i as int].0@);
                        }
                        if target.contains_key(k) {
                            let j = choose|j: int| 0 <= j < e1.len() && #[trigger] e1[j].0@ == k;
                            assert(j != i);
                            let j2 = if j < i { j } else { j - 1 };
                            assert(e2[j2] == e1[j]);
                            assert(Self::holds(e2, k));
                        }
                    }
                    assert forall|k: Seq<char>| #[trigger] m2.contains_key(k) implies m2[k]
                        == target[k] by {
                        let j = choose|j: int| 0 <= j < e2.len() && #[trigger] e2[j].0@ == k;
                        Self::lemma_entry(e2, j);
                        let j1 = if j < i { j } else { j + 1 };
                        assert(e2[j] == e1[j1]);
                        Self::lemma_entry(e1, j1);
                    }
                    assert(m2 =~= target);
                }
                self.entries = entries;
            },
        }
    }
}

/// A container as the Docker daemon lists it, reduced to the fields that
/// the panel reads.
pub struct ContainerSummary {
    pub id: Option<String>,
    pub names: Option<Vec<String>>,
    pub status: Option<String>,
}

/// One statistics reading of a container, reduced to the fields that the
/// panel reads.
#[derive(Debug, Clone, Copy)]
pub struct ContainerStats {
    pub cpu_total: u64,
    pub system_cpu: Option<u64>,
    pub online_cpus: Option<u64>,
    pub memory_usage: Option<u64>,
    pub memory_limit: Option<u64>,
}

/// What the panel shows of one container, with the CPU deltas from which
/// its CPU percentage is computed (none when the percentage is 0).
pub struct ContainerReading {
    pub name: String,
    pub status: String,
    pub cpu: Option<CpuDeltas>,
    pub memory_bytes: u64,
    pub memory_limit: u64,
}

/// The name shown for a container: its first listed name without leading
/// slashes, or its short id when it has no name.
pub open spec fn container_name(names: Option<Vec<String>>, id: Seq<char>) -> Seq<char> {
    match names {
        Some(ns) => if ns@.len() > 0 {
            strip_leading(ns@[0]@, '/')
        } else {
            first_chars(id, SHORT_ID_LEN as nat)
        },
        None => first_chars(id, SHORT_ID_LEN as nat),
    }
}

/// Turns one listed container and its statistics (if they could be read)
/// into what the panel shows, and keeps the table of previous readings:
/// a container without an id is skipped; with statistics, the CPU deltas
/// are taken against the previous reading and the new reading replaces it;
/// without statistics, the previous reading is forgotten and CPU and memory
/// show as 0.
pub fn read_container(
    summary: &ContainerSummary,
    stats: Option<ContainerStats>,
    prev: &mut CpuSampleTable,
) -> (r: Option<ContainerReading>)
    ensures
        summary.id is None ==> r is None && final(prev)@ == old(prev)@,
        summary.id matches Some(id) ==> r matches Some(reading) && {
            &&& reading.name@ == container_name(summary.names, id@)
            &&& reading.status@ == match summary.status {
                Some(s) => s@,
                None => "unknown"@,
            }
            &&& match stats {
                Some(st) => {
                    let system = st.system_cpu.unwrap_or(0);
                    let online = st.online_cpus.unwrap_or(1);
                    let last = if old(prev)@.contains_key(id@) {
                        Some(old(prev)@[id@])
                    } else {
                        None
                    };
                    &&& reading.cpu == deltas_of(st.cpu_total, system, online, last)
                    &&& reading.memory_bytes == st.memory_usage.unwrap_or(0)
                    &&& reading.memory_limit == st.memory_limit.unwrap_or(0)
                    &&& final(prev)@ == old(prev)@.insert(id@, (st.cpu_total, system))
                },
                None => {
                    &&& reading.cpu is None
                    &&& reading.memory_bytes == 0
                    &&& reading.memory_limit == 0
                    &&& final(prev)@ == old(prev)@.remove(id@)
                },
            }
        },
{
    let id = match &summary.id {
        Some(id) => id,
        None => {
            return None;
        },
    };
    let short_id = take_chars(id.as_str(), SHORT_ID_LEN);
    let name = match &summary.names {
        Some(ns) => {
            if ns.len() > 0 {
                trim_leading(ns[0].as_str(), '/')
            } else {
                short_id
            }
        },
        None => short_id,
    };
    let status = match &summary.status {
        Some(s) => s.clone(),
        None => String::from_str("unknown"),
    };
    match stats {
        Some(st) => {
            let system = st.system_cpu.unwrap_or(0);
            let online = st.online_cpus.unwrap_or(1);
            let last = prev.get(id);
            let cpu = cpu_usage_deltas(st.cpu_total, system, online, last);
            prev.insert(id.clone(), (st.cpu_total, system));
            Some(
                ContainerReading {
                    name,
                    status,
                    cpu,
                    memory_bytes: st.memory_usage.unwrap_or(0),
                    memory_limit: st.memory_limit.unwrap_or(0),
                },
            )
        },
        None => {
            prev.remove(id);
            Some(ContainerReading { name, status, cpu: None, memory_bytes: 0, memory_limit: 0 })
        },
    }
}

/// Whether a container's status says it is running (such containers are
/// highlighted).
pub fn is_running(status: &str) -> (r: bool)
    ensures
        r == has_substring(status@, "running"@),
{
    contains(status, "running")
}

/// After a container's statistics are read, the table holds that reading
/// for it, and the next reading of the same container is measured against
/// it.
pub proof fn lemma_reading_then_next(
    table: Map<Seq<char>, (u64, u64)>,
    id: Seq<char>,
    cpu_total: u64,
    system_cpu: u64,
    next_cpu: u64,
    next_system: u64,
    online: u64,
)
    ensures
        table.insert(id, (cpu_total, system_cpu)).contains_key(id),
        deltas_of(next_cpu, next_system, online, Some(table.insert(id, (cpu_total, system_cpu))[id]))
            == deltas_of(next_cpu, next_system, online, Some((cpu_total, system_cpu))),
{
}

} // verus!
