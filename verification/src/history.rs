//! Per-process counter histories: each sample is compared with the previous sample of the
//! same process, and processes not seen for two minutes are forgotten.

use vstd::prelude::*;

verus! {

/// How long a process's last sample is kept, in nanoseconds.
pub const COUNTER_TTL_NANOS: u64 = 120_000_000_000;

/// QoS classes a process's CPU time is split into.
pub const QOS_BUCKETS: usize = 7;

/// A process as the histories know it: its pid and its start time, so that a reused pid
/// is a different process.
pub type ProcessKey = (i32, u64, u64);

/// Nanoseconds from `captured` to `now`, or 0 when the clock has not moved past it.
pub open spec fn age(now: u64, captured: u64) -> nat {
    if now >= captured {
        (now - captured) as nat
    } else {
        0
    }
}

/// The entries kept after a sample of `key` at `now`: every other process sampled less
/// than two minutes ago.
pub open spec fn retained<V>(s: Seq<(ProcessKey, V, u64)>, key: ProcessKey, now: u64) -> Seq<(ProcessKey, V, u64)>
    decreases s.len(),
{
    if s.len() == 0 {
        seq![]
    } else {
        let r = retained(s.drop_last(), key, now);
        if s.last().0 != key && age(now, s.last().2) < COUNTER_TTL_NANOS {
            r.push(s.last())
        } else {
            r
        }
    }
}

/// The last sample of `key`, with when it was taken.
pub open spec fn lookup<V>(s: Seq<(ProcessKey, V, u64)>, key: ProcessKey) -> Option<(V, u64)>
    decreases s.len(),
{
    if s.len() == 0 {
        None
    } else if s.last().0 == key {
        Some((s.last().1, s.last().2))
    } else {
        lookup(s.drop_last(), key)
    }
}

pub open spec fn keys_unique<V>(s: Seq<(ProcessKey, V, u64)>) -> bool {
    forall|i: int, j: int| 0 <= i < j < s.len() ==> #[trigger] s[i].0 != #[trigger] s[j].0
}

/// The previous sample of `key` and the time since, when time has passed since it.
pub open spec fn previous_sample<V>(s: Seq<(ProcessKey, V, u64)>, key: ProcessKey, now: u64) -> Option<(V, u64)> {
    match lookup(s, key) {
        Some((v, captured)) => if now > captured {
            Some((v, (now - captured) as u64))
        } else {
            None
        },
        None => None,
    }
}

proof fn lemma_retained<V>(s: Seq<(ProcessKey, V, u64)>, key: ProcessKey, now: u64)
    requires
        keys_unique(s),
    ensures
        keys_unique(retained(s, key, now)),
        forall|i: int| 0 <= i < retained(s, key, now).len() ==> (#[trigger] retained(s, key, now)[i]).0 != key
            && exists|j: int| 0 <= j < s.len() && s[j].0 == retained(s, key, now)[i].0,
    decreases s.len(),
{
    if s.len() > 0 {
        let d = s.drop_last();
        assert forall|i: int, j: int| 0 <= i < j < d.len() implies #[trigger] d[i].0 != #[trigger] d[j].0 by {
            assert(d[i] == s[i] && d[j] == s[j]);
        }
        lemma_retained(d, key, now);
        let r = retained(d, key, now);
        let out = retained(s, key, now);
        assert forall|i: int| 0 <= i < out.len() implies (#[trigger] out[i]).0 != key && exists|j: int|
            0 <= j < s.len() && s[j].0 == out[i].0 by {
            if i < r.len() {
                assert(out[i] == r[i]);
                let j = choose|j: int| 0 <= j < d.len() && d[j].0 == r[i].0;
                assert(s[j] == d[j]);
            } else {
                assert(s[s.len() - 1].0 == out[i].0);
            }
        }
        if s.last().0 != key && age(now, s.last().2) < COUNTER_TTL_NANOS {
            assert forall|i: int, j: int| 0 <= i < j < out.len() implies #[trigger] out[i].0 != #[trigger] out[j].0 by {
                if j < r.len() {
                    assert(out[i] == r[i] && out[j] == r[j]);
                } else {
                    assert(out[i] == r[i]);
                    let k = choose|k: int| 0 <= k < d.len() && d[k].0 == r[i].0;
                    assert(s[k] == d[k]);
                    assert(s[k].0 != s[s.len() - 1].0);
                }
            }
        }
    }
}

proof fn lemma_lookup_found<V>(s: Seq<(ProcessKey, V, u64)>, key: ProcessKey)
    ensures
        lookup(s, key) is Some ==> exists|j: int| 0 <= j < s.len() && s[j].0 == key,
    decreases s.len(),
{
    if s.len() > 0 && s.last().0 != key {
        let d = s.drop_last();
        lemma_lookup_found(d, key);
        if lookup(d, key) is Some {
            let j = choose|j: int| 0 <= j < d.len() && d[j].0 == key;
            assert(s[j] == d[j]);
        }
    }
}

proof fn lemma_lookup_retained<V>(s: Seq<(ProcessKey, V, u64)>, key: ProcessKey, now: u64, other: ProcessKey)
    requires
        keys_unique(s),
        other != key,
    ensures
        lookup(retained(s, key, now), other) == match lookup(s, other) {
            Some((v, captured)) => if age(now, captured) < COUNTER_TTL_NANOS {
                Some((v, captured))
            } else {
                None
            },
            None => None,
        },
    decreases s.len(),
{
    if s.len() > 0 {
        let d = s.drop_last();
        assert forall|i: int, j: int| 0 <= i < j < d.len() implies #[trigger] d[i].0 != #[trigger] d[j].0 by {
            assert(d[i] == s[i] && d[j] == s[j]);
        }
        lemma_lookup_retained(d, key, now, other);
        let r = retained(d, key, now);
        assert(r.push(s.last()).drop_last() =~= r);
        if s.last().0 == other {
            lemma_lookup_found(d, other);
            if lookup(d, other) is Some {
                let j = choose|j: int| 0 <= j < d.len() && d[j].0 == other;
                assert(s[j] == d[j]);
                assert(s[j].0 != s[s.len() - 1].0);
            }
        }
    }
}

/// Once a process is sampled, its next sample is compared with that one: with the
/// counters recorded then and the time since, or with nothing when no time has passed.
pub proof fn lemma_next_sample_compares_with_last<V>(
    s: Seq<(ProcessKey, V, u64)>,
    key: ProcessKey,
    value: V,
    captured: u64,
    now: u64,
)
    ensures
        previous_sample(retained(s, key, captured).push((key, value, captured)), key, now) == (if now > captured {
            Some((value, (now - captured) as u64))
        } else {
            None
        }),
{
}

/// Sampling one process leaves what is known of every other: its last sample stays while
/// it is less than two minutes old at the time of the new sample, and is forgotten after.
pub proof fn lemma_other_processes_kept<V>(
    s: Seq<(ProcessKey, V, u64)>,
    key: ProcessKey,
    value: V,
    now: u64,
    other: ProcessKey,
)
    requires
        keys_unique(s),
        other != key,
    ensures
        lookup(retained(s, key, now).push((key, value, now)), other) == match lookup(s, other) {
            Some((v, captured)) => if age(now, captured) < COUNTER_TTL_NANOS {
                Some((v, captured))
            } else {
                None
            },
            None => None,
        },
{
    lemma_lookup_retained(s, key, now, other);
    assert(retained(s, key, now).push((key, value, now)).drop_last() =~= retained(s, key, now));
}

/// The last sample of every recent process.
pub struct Samples<V> {
    entries: Vec<(ProcessKey, V, u64)>,
}

impl<V> View for Samples<V> {
    type V = Seq<(ProcessKey, V, u64)>;

    closed spec fn view(&self) -> Seq<(ProcessKey, V, u64)> {
        self.entries@
    }
}

impl<V> Samples<V> {
    #[verifier::type_invariant]
    spec fn unique(self) -> bool {
        keys_unique(self.entries@)
    }
}

impl<V: Copy> Samples<V> {
    pub fn new() -> (s: Self)
        ensures
            s@ == Seq::<(ProcessKey, V, u64)>::empty(),
    {
        Samples { entries: Vec::new() }
    }

    /// Records `value` for `key` at `now`, drops what has gone stale, and gives back the
    /// previous sample of `key` with the nanoseconds since it.
    pub fn record(&mut self, key: ProcessKey, value: V, now: u64) -> (r: Option<(V, u64)>)
        ensures
            keys_unique(old(self)@),
            r == previous_sample(old(self)@, key, now),
            final(self)@ == retained(old(self)@, key, now).push((key, value, now)),
    {
        proof {
            use_type_invariant(&*self);
        }
        let mut found: Option<(V, u64)> = None;
        let mut kept: Vec<(ProcessKey, V, u64)> = Vec::new();
        let mut i: usize = 0;
        let ghost s = self.entries@;
        while i < self.entries.len()
            invariant
                i <= s.len(),
                s == self.entries@,
                keys_unique(s),
                kept@ == retained(s.take(i as int), key, now),
                found == lookup(s.take(i as int), key),
            decreases s.len() - i,
        {
            let e = self.entries[i];
            let ghost t = s.take(i + 1);
            assert(t.drop_last() =~= s.take(i as int));
            assert(t.last() == e);
            if (e.0).0 == key.0 && (e.0).1 == key.1 && (e.0).2 == key.2 {
                found = Some((e.1, e.2));
            } else {
                let fresh = if now >= e.2 {
                    now - e.2 < COUNTER_TTL_NANOS
                } else {
                    true
                };
                if fresh {
                    kept.push(e);
                }
            }
            proof {
                if e.0 != key {
                    assert(lookup(t, key) == lookup(s.take(i as int), key));
                }
            }
            i = i + 1;
        }
        assert(s.take(s.len() as int) =~= s);
        proof {
            lemma_retained(s, key, now);
        }
        kept.push((key, value, now));
        proof {
            let out = kept@;
            let r = retained(s, key, now);
            assert forall|a: int, b: int| 0 <= a < b < out.len() implies #[trigger] out[a].0 != #[trigger] out[b].0 by {
                if b < r.len() {
                    assert(out[a] == r[a] && out[b] == r[b]);
                } else {
                    assert(out[a] == r[a]);
                }
            }
        }
        self.entries = kept;
        match found {
            Some((v, captured)) => {
                if now > captured {
                    Some((v, now - captured))
                } else {
                    None
                }
            },
            None => None,
        }
    }
}

/// CPU time used between two samples of a process.
#[derive(Debug, Clone, Copy, PartialEq, Eq, Structural)]
pub struct CpuDelta {
    pub ticks: u64,
    pub elapsed_ns: u64,
}

/// The previous CPU-time total of each recent process.
pub struct ProcessCpuHistory {
    samples: Samples<u64>,
}

impl View for ProcessCpuHistory {
    type V = Seq<(ProcessKey, u64, u64)>;

    closed spec fn view(&self) -> Seq<(ProcessKey, u64, u64)> {
        self.samples@
    }
}

/// User plus system time, saturating.
pub open spec fn total_ticks(user_ticks: u64, system_ticks: u64) -> u64 {
    if user_ticks + system_ticks <= u64::MAX {
        (user_ticks + system_ticks) as u64
    } else {
        u64::MAX
    }
}

/// The CPU time a process used since its previous sample, and the time that passed: none
/// on its first sample, when no time passed, or when its counter went back.
pub open spec fn cpu_delta_spec(prev: Option<(u64, u64)>, current: u64) -> Option<CpuDelta> {
    match prev {
        Some((old, elapsed)) => if current >= old {
            Some(CpuDelta { ticks: (current - old) as u64, elapsed_ns: elapsed })
        } else {
            None
        },
        None => None,
    }
}

impl ProcessCpuHistory {
    pub fn new() -> (h: Self)
        ensures
            h@ == Seq::<(ProcessKey, u64, u64)>::empty(),
    {
        ProcessCpuHistory { samples: Samples::new() }
    }

    /// Records the CPU-time total of a process at `now_ns` and gives what it used since its
    /// previous sample; the percentage is that over the elapsed time.
    pub fn cpu_delta(
        &mut self,
        pid: i32,
        start_seconds: u64,
        start_microseconds: u64,
        user_ticks: u64,
        system_ticks: u64,
        now_ns: u64,
    ) -> (r: Option<CpuDelta>)
        ensures
            keys_unique(old(self)@),
            r == cpu_delta_spec(
                previous_sample(old(self)@, (pid, start_seconds, start_microseconds), now_ns),
                total_ticks(user_ticks, system_ticks),
            ),
            final(self)@ == retained(old(self)@, (pid, start_seconds, start_microseconds), now_ns).push(
                ((pid, start_seconds, start_microseconds), total_ticks(user_ticks, system_ticks), now_ns),
            ),
    {
        let current = match user_ticks.checked_add(system_ticks) {
            Some(v) => v,
            None => u64::MAX,
        };
        let prev = self.samples.record((pid, start_seconds, start_microseconds), current, now_ns);
        match prev {
            Some((old, elapsed)) => {
                if current >= old {
                    Some(CpuDelta { ticks: current - old, elapsed_ns: elapsed })
                } else {
                    None
                }
            },
            None => None,
        }
    }
}

/// Cumulative counters of one process in one sample; all of them only grow.
#[derive(Debug, Clone, Copy, Default, PartialEq, Eq)]
pub struct ProcessEnergyCounters {
    /// CPU time per QoS class, in nanoseconds.
    pub qos_nanoseconds: [u64; 7],
    /// User plus system time, in nanoseconds; used when no QoS class reports.
    pub cpu_nanoseconds: u64,
    /// Wakeups of the whole package from idle, the costliest kind.
    pub idle_wakeups: u64,
    /// Interrupt wakeups; where package wakeups stay at zero they stand in for them.
    pub interrupt_wakeups: u64,
    pub disk_read_bytes: u64,
    pub disk_written_bytes: u64,
}

/// What a process did between two samples, the inputs of its energy impact.
#[derive(Debug, Clone, PartialEq, Eq)]
pub struct EnergyDelta {
    pub qos_nanoseconds: Vec<u64>,
    pub cpu_nanoseconds: u64,
    pub wakeups: u64,
    pub read_bytes: u64,
    pub written_bytes: u64,
    pub elapsed_ns: u64,
}

/// Every counter grew or stayed from `old` to `cur`.
pub open spec fn counters_grew(old: ProcessEnergyCounters, cur: ProcessEnergyCounters) -> bool {
    &&& cur.idle_wakeups >= old.idle_wakeups
    &&& cur.interrupt_wakeups >= old.interrupt_wakeups
    &&& cur.disk_read_bytes >= old.disk_read_bytes
    &&& cur.disk_written_bytes >= old.disk_written_bytes
    &&& cur.cpu_nanoseconds >= old.cpu_nanoseconds
    &&& forall|k: int| 0 <= k < 7 ==> #[trigger] cur.qos_nanoseconds@[k] >= old.qos_nanoseconds@[k]
}

/// The differences, package wakeups preferred and interrupt wakeups used when there were
/// none.
pub open spec fn energy_delta_matches(d: EnergyDelta, old: ProcessEnergyCounters, cur: ProcessEnergyCounters, elapsed: u64) -> bool {
    &&& d.elapsed_ns == elapsed
    &&& d.wakeups == (if cur.idle_wakeups > old.idle_wakeups {
        cur.idle_wakeups - old.idle_wakeups
    } else {
        cur.interrupt_wakeups - old.interrupt_wakeups
    })
    &&& d.read_bytes == cur.disk_read_bytes - old.disk_read_bytes
    &&& d.written_bytes == cur.disk_written_bytes - old.disk_written_bytes
    &&& d.cpu_nanoseconds == cur.cpu_nanoseconds - old.cpu_nanoseconds
    &&& d.qos_nanoseconds@.len() == 7
    &&& forall|k: int| 0 <= k < 7 ==> #[trigger] d.qos_nanoseconds@[k] == cur.qos_nanoseconds@[k] - old.qos_nanoseconds@[k]
}

fn counters_delta(old: &ProcessEnergyCounters, cur: &ProcessEnergyCounters, elapsed: u64) -> (r: Option<EnergyDelta>)
    ensures
        r is Some <==> counters_grew(*old, *cur),
        r matches Some(d) ==> energy_delta_matches(d, *old, *cur, elapsed),
{
    if cur.idle_wakeups < old.idle_wakeups || cur.interrupt_wakeups < old.interrupt_wakeups {
        return None;
    }
    let package = cur.idle_wakeups - old.idle_wakeups;
    let wakeups = if package > 0 {
        package
    } else {
        cur.interrupt_wakeups - old.interrupt_wakeups
    };
    if cur.disk_read_bytes < old.disk_read_bytes || cur.disk_written_bytes < old.disk_written_bytes
        || cur.cpu_nanoseconds < old.cpu_nanoseconds {
        return None;
    }
    let mut qos: Vec<u64> = Vec::new();
    let mut k: usize = 0;
    while k < 7
        invariant
            k <= 7,
            qos@.len() == k,
            forall|j: int| 0 <= j < k ==> #[trigger] cur.qos_nanoseconds@[j] >= old.qos_nanoseconds@[j]
                && qos@[j] == cur.qos_nanoseconds@[j] - old.qos_nanoseconds@[j],
        decreases 7 - k,
    {
        if cur.qos_nanoseconds[k] < old.qos_nanoseconds[k] {
            return None;
        }
        qos.push(cur.qos_nanoseconds[k] - old.qos_nanoseconds[k]);
        k = k + 1;
    }
    Some(
        EnergyDelta {
            qos_nanoseconds: qos,
            cpu_nanoseconds: cur.cpu_nanoseconds - old.cpu_nanoseconds,
            wakeups,
            read_bytes: cur.disk_read_bytes - old.disk_read_bytes,
            written_bytes: cur.disk_written_bytes - old.disk_written_bytes,
            elapsed_ns: elapsed,
        },
    )
}

/// The previous counters of each recent process.
pub struct ProcessEnergyHistory {
    samples: Samples<ProcessEnergyCounters>,
}

impl View for ProcessEnergyHistory {
    type V = Seq<(ProcessKey, ProcessEnergyCounters, u64)>;

    closed spec fn view(&self) -> Seq<(ProcessKey, ProcessEnergyCounters, u64)> {
        self.samples@
    }
}

impl ProcessEnergyHistory {
    pub fn new() -> (h: Self)
        ensures
            h@ == Seq::<(ProcessKey, ProcessEnergyCounters, u64)>::empty(),
    {
        ProcessEnergyHistory { samples: Samples::new() }
    }

    /// Records a process's counters at `now_ns` and gives what it did since its previous
    /// sample: none on the first sample, when no time passed, or when a counter went back
    /// (a reused pid, a reset).
    pub fn energy_delta(
        &mut self,
        pid: i32,
        start_seconds: u64,
        start_microseconds: u64,
        current: ProcessEnergyCounters,
        now_ns: u64,
    ) -> (r: Option<EnergyDelta>)
        ensures
            keys_unique(old(self)@),
            final(self)@ == retained(old(self)@, (pid, start_seconds, start_microseconds), now_ns).push(
                ((pid, start_seconds, start_microseconds), current, now_ns),
            ),
            match previous_sample(old(self)@, (pid, start_seconds, start_microseconds), now_ns) {
                Some((old_counters, elapsed)) => {
                    &&& (r is Some <==> counters_grew(old_counters, current))
                    &&& (r matches Some(d) ==> energy_delta_matches(d, old_counters, current, elapsed))
                },
                None => r is None,
            },
    {
        let prev = self.samples.record((pid, start_seconds, start_microseconds), current, now_ns);
        match prev {
            Some((old, elapsed)) => counters_delta(&old, &current, elapsed),
            None => None,
        }
    }
}

impl Default for ProcessCpuHistory {
    fn default() -> (h: Self)
        ensures
            h@ == Seq::<(ProcessKey, u64, u64)>::empty(),
    {
        ProcessCpuHistory::new()
    }
}

impl Default for ProcessEnergyHistory {
    fn default() -> (h: Self)
        ensures
            h@ == Seq::<(ProcessKey, ProcessEnergyCounters, u64)>::empty(),
    {
        ProcessEnergyHistory::new()
    }
}

} // verus!
