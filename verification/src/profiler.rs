//! Out-of-band instrumentation: a profiler that records named timings,
//! memory readings and counters, and the worker auto-tuner's decision rule.
//! Instants come in from the embedding as microsecond readings of its clock.

use vstd::prelude::*;

use crate::error::{ErrorKind, ParallelError};

verus! {

/// Whether a name occurs in an association list.
pub open spec fn assoc_has<V>(entries: Seq<(String, V)>, name: Seq<char>) -> bool {
    exists|i: int| 0 <= i < entries.len() && (#[trigger] entries[i]).0@ == name
}

/// A profiler: an optional running stopwatch, open named timers, and the
/// recorded timings, memory readings and counters, each an association list
/// in first-recording order.
pub struct Profiler {
    pub started_at_us: Option<u64>,
    pub open_timers: Vec<(String, u64)>,
    pub timings: Vec<(String, u64)>,
    pub memory_usage: Vec<(String, usize)>,
    pub counters: Vec<(String, u64)>,
}

impl Profiler {
    /// A profiler with nothing recorded.
    pub fn new() -> (r: Profiler)
        ensures
            r.started_at_us is None,
            r.open_timers@.len() == 0,
            r.timings@.len() == 0,
            r.memory_usage@.len() == 0,
            r.counters@.len() == 0,
    {
        Profiler {
            started_at_us: None,
            open_timers: Vec::new(),
            timings: Vec::new(),
            memory_usage: Vec::new(),
            counters: Vec::new(),
        }
    }

    /// Start the stopwatch at the given instant.
    pub fn start(&mut self, now_us: u64)
        ensures
            final(self).started_at_us == Some(now_us),
            final(self).timings == old(self).timings,
            final(self).memory_usage == old(self).memory_usage,
            final(self).counters == old(self).counters,
            final(self).open_timers == old(self).open_timers,
    {
        self.started_at_us = Some(now_us);
    }

    /// Stop the stopwatch at the given instant: the elapsed time since it
    /// started (zero under a backwards clock), or nothing when it was not
    /// running.
    pub fn stop(&mut self, now_us: u64) -> (r: Option<u64>)
        ensures
            final(self).started_at_us is None,
            final(self).timings == old(self).timings,
            final(self).memory_usage == old(self).memory_usage,
            final(self).counters == old(self).counters,
            final(self).open_timers == old(self).open_timers,
            match old(self).started_at_us {
                Some(s) => r == Some(if now_us >= s {
                    (now_us - s) as u64
                } else {
                    0u64
                }),
                None => r is None,
            },
    {
        let started = self.started_at_us;
        self.started_at_us = None;
        match started {
            Some(s) => {
                if now_us >= s {
                    Some(now_us - s)
                } else {
                    Some(0)
                }
            },
            None => None,
        }
    }

    /// Open a named timer at the given instant (re-opening replaces the
    /// earlier start).
    pub fn start_timer(&mut self, name: String, now_us: u64)
        ensures
            final(self).timings == old(self).timings,
            final(self).memory_usage == old(self).memory_usage,
            final(self).counters == old(self).counters,
            final(self).started_at_us == old(self).started_at_us,
            assoc_has(final(self).open_timers@, name@),
    {
        let replaced = assoc_replace_u64(&mut self.open_timers, name, now_us);
        let _ = replaced;
    }

    /// Close a named timer at the given instant: the elapsed time is
    /// recorded under the name and returned, or `NotFound` surfaces when the
    /// timer was never opened.
    pub fn stop_timer(&mut self, name: String, now_us: u64) -> (r: Result<u64, ParallelError>)
        ensures
            final(self).memory_usage == old(self).memory_usage,
            final(self).counters == old(self).counters,
            final(self).started_at_us == old(self).started_at_us,
            r matches Ok(_) ==> assoc_has(final(self).timings@, name@) && assoc_has(
                old(self).open_timers@,
                name@,
            ),
            r matches Err(e) ==> e.kind == ErrorKind::NotFound && !assoc_has(
                old(self).open_timers@,
                name@,
            ) && final(self).timings == old(self).timings && final(self).open_timers@ == old(self).open_timers@,
    {
        let ghost nm = name@;
        let started = assoc_take_u64(&mut self.open_timers, &name);
        match started {
            Some(s) => {
                proof {
                    let i = choose|i: int|
                        0 <= i < old(self).open_timers@.len() && (#[trigger] old(self).open_timers@[i]).0@ == nm && old(self).open_timers@[i].1 == s;
                    assert(assoc_has(old(self).open_timers@, nm));
                }
                let elapsed = if now_us >= s {
                    now_us - s
                } else {
                    0
                };
                let _ = assoc_replace_u64(&mut self.timings, name, elapsed);
                Ok(elapsed)
            },
            None => Err(ParallelError::new(ErrorKind::NotFound)),
        }
    }

    /// Record a memory reading under a name (replacing an earlier reading).
    pub fn record_memory(&mut self, name: String, bytes: usize)
        ensures
            final(self).timings == old(self).timings,
            final(self).counters == old(self).counters,
            final(self).open_timers == old(self).open_timers,
            final(self).started_at_us == old(self).started_at_us,
            assoc_has(final(self).memory_usage@, name@),
    {
        let slot = find_name_usize(&self.memory_usage, &name);
        match slot {
            Some(i) => {
                let _ = self.memory_usage.remove(i);
                self.memory_usage.insert(i, (name, bytes));
                proof {
                    assert(self.memory_usage@[i as int].0@ == name@);
                }
            },
            None => {
                self.memory_usage.push((name, bytes));
                proof {
                    assert(self.memory_usage@.last().0@ == name@);
                }
            },
        }
    }

    /// Add to a named counter (by one when no amount is given), saturating;
    /// an unseen name starts from zero.
    pub fn increment_counter(&mut self, name: String, amount: Option<u64>)
        ensures
            final(self).timings == old(self).timings,
            final(self).memory_usage == old(self).memory_usage,
            final(self).open_timers == old(self).open_timers,
            final(self).started_at_us == old(self).started_at_us,
            assoc_has(final(self).counters@, name@),
    {
        let by = match amount {
            Some(v) => v,
            None => 1,
        };
        let slot = find_name_u64(&self.counters, &name);
        match slot {
            Some(i) => {
                let (_, current) = self.counters.remove(i);
                self.counters.insert(i, (name, current.saturating_add(by)));
                proof {
                    assert(self.counters@[i as int].0@ == name@);
                }
            },
            None => {
                self.counters.push((name, by));
                proof {
                    assert(self.counters@.last().0@ == name@);
                }
            },
        }
    }

    /// The recorded timings, in first-recording order.
    pub fn get_timings(&self) -> (r: Vec<(String, u64)>)
        ensures
            r@.len() == self.timings@.len(),
            forall|i: int|
                0 <= i < r@.len() ==> (#[trigger] r@[i]).0@ == self.timings@[i].0@ && r@[i].1
                    == self.timings@[i].1,
    {
        clone_assoc_u64(&self.timings)
    }

    /// The recorded memory readings, in first-recording order.
    pub fn get_memory_usage(&self) -> (r: Vec<(String, usize)>)
        ensures
            r@.len() == self.memory_usage@.len(),
            forall|i: int|
                0 <= i < r@.len() ==> (#[trigger] r@[i]).0@ == self.memory_usage@[i].0@ && r@[i].1
                    == self.memory_usage@[i].1,
    {
        let mut out: Vec<(String, usize)> = Vec::new();
        let mut i: usize = 0;
        let n = self.memory_usage.len();
        while i < n
            invariant
                i <= n,
                n == self.memory_usage@.len(),
                out@.len() == i,
                forall|q: int|
                    0 <= q < i ==> (#[trigger] out@[q]).0@ == self.memory_usage@[q].0@ && out@[q].1
                        == self.memory_usage@[q].1,
            decreases n - i,
        {
            let entry = &self.memory_usage[i];
            out.push((entry.0.clone(), entry.1));
            i = i + 1;
        }
        out
    }

    /// The recorded counters, in first-recording order.
    pub fn get_counters(&self) -> (r: Vec<(String, u64)>)
        ensures
            r@.len() == self.counters@.len(),
            forall|i: int|
                0 <= i < r@.len() ==> (#[trigger] r@[i]).0@ == self.counters@[i].0@ && r@[i].1
                    == self.counters@[i].1,
    {
        clone_assoc_u64(&self.counters)
    }

    /// A full report: timings, memory readings, counters, and the elapsed
    /// stopwatch time at the given instant, if the stopwatch runs.
    pub fn get_report(&self, now_us: u64) -> (r: (
        Vec<(String, u64)>,
        Vec<(String, usize)>,
        Vec<(String, u64)>,
        Option<u64>,
    ))
        ensures
            r.0@.len() == self.timings@.len(),
            r.1@.len() == self.memory_usage@.len(),
            r.2@.len() == self.counters@.len(),
            match self.started_at_us {
                Some(s) => r.3 == Some(if now_us >= s {
                    (now_us - s) as u64
                } else {
                    0u64
                }),
                None => r.3 is None,
            },
    {
        let elapsed = match self.started_at_us {
            Some(s) => Some(
                if now_us >= s {
                    now_us - s
                } else {
                    0
                },
            ),
            None => None,
        };
        (self.get_timings(), self.get_memory_usage(), self.get_counters(), elapsed)
    }

    /// Discard everything recorded and stop the stopwatch.
    pub fn clear(&mut self)
        ensures
            final(self).started_at_us is None,
            final(self).open_timers@.len() == 0,
            final(self).timings@.len() == 0,
            final(self).memory_usage@.len() == 0,
            final(self).counters@.len() == 0,
    {
        self.started_at_us = None;
        self.open_timers.clear();
        self.timings.clear();
        self.memory_usage.clear();
        self.counters.clear();
    }
}

/// Compare two strings by their characters.
fn string_eq(a: &String, b: &String) -> (r: bool)
    ensures
        r == (a@ == b@),
{
    *a == *b
}

/// Replace the first entry under the name (or append one), returning the
/// replaced value.
fn assoc_replace_u64(entries: &mut Vec<(String, u64)>, name: String, value: u64) -> (r: Option<
    u64,
>)
    ensures
        assoc_has(final(entries)@, name@),
{
    let slot = find_name_u64(entries, &name);
    match slot {
        Some(i) => {
            let (_, prev) = entries.remove(i);
            entries.insert(i, (name, value));
            proof {
                assert(entries@[i as int].0@ == name@);
            }
            Some(prev)
        },
        None => {
            entries.push((name, value));
            proof {
                assert(entries@.last().0@ == name@);
            }
            None
        },
    }
}

/// The index of the first entry under the name, if one exists.
fn find_name_u64(entries: &Vec<(String, u64)>, name: &String) -> (r: Option<usize>)
    ensures
        match r {
            Some(i) => i < entries@.len() && entries@[i as int].0@ == name@ && entries@[i as int].1
                == entries@[i as int].1,
            None => !assoc_has(entries@, name@),
        },
{
    let mut i: usize = 0;
    let n = entries.len();
    while i < n
        invariant
            i <= n,
            n == entries@.len(),
            forall|q: int| 0 <= q < i ==> (#[trigger] entries@[q]).0@ != name@,
        decreases n - i,
    {
        if string_eq(&entries[i].0, name) {
            return Some(i);
        }
        i = i + 1;
    }
    None
}

/// The index of the first entry under the name, if one exists.
fn find_name_usize(entries: &Vec<(String, usize)>, name: &String) -> (r: Option<usize>)
    ensures
        match r {
            Some(i) => i < entries@.len() && entries@[i as int].0@ == name@,
            None => forall|q: int|
                0 <= q < entries@.len() ==> (#[trigger] entries@[q]).0@ != name@,
        },
{
    let mut i: usize = 0;
    let n = entries.len();
    while i < n
        invariant
            i <= n,
            n == entries@.len(),
            forall|q: int| 0 <= q < i ==> (#[trigger] entries@[q]).0@ != name@,
        decreases n - i,
    {
        if string_eq(&entries[i].0, name) {
            return Some(i);
        }
        i = i + 1;
    }
    None
}

/// Take the first entry under the name out, returning its value.
fn assoc_take_u64(entries: &mut Vec<(String, u64)>, name: &String) -> (r: Option<u64>)
    ensures
        r matches Some(v) ==> exists|i: int|
            0 <= i < old(entries)@.len() && (#[trigger] old(entries)@[i]).0@ == name@ && old(
                entries,
            )@[i].1 == v && final(entries)@ == old(entries)@.remove(i),
        r is None ==> final(entries)@ == old(entries)@ && !assoc_has(old(entries)@, name@),
{
    let slot = find_name_u64(entries, name);
    match slot {
        Some(i) => {
            let ghost pre = entries@;
            let (_, value) = entries.remove(i);
            proof {
                assert(pre[i as int].1 == value);
            }
            Some(value)
        },
        None => None,
    }
}

/// Copy an association list of 64-bit values.
fn clone_assoc_u64(entries: &Vec<(String, u64)>) -> (r: Vec<(String, u64)>)
    ensures
        r@.len() == entries@.len(),
        forall|i: int|
            0 <= i < r@.len() ==> (#[trigger] r@[i]).0@ == entries@[i].0@ && r@[i].1
                == entries@[i].1,
{
    let mut out: Vec<(String, u64)> = Vec::new();
    let mut i: usize = 0;
    let n = entries.len();
    while i < n
        invariant
            i <= n,
            n == entries@.len(),
            out@.len() == i,
            forall|q: int|
                0 <= q < i ==> (#[trigger] out@[q]).0@ == entries@[q].0@ && out@[q].1
                    == entries@[q].1,
        decreases n - i,
    {
        let entry = &entries[i];
        out.push((entry.0.clone(), entry.1));
        i = i + 1;
    }
    out
}

/// One benchmark sample the auto-tuner weighs: a worker count, how many
/// items that configuration processed, and how long it ran.
#[derive(Clone, Copy, Debug, PartialEq, Eq, Structural)]
pub struct WorkerSample {
    pub workers: usize,
    pub processed: u64,
    pub elapsed_us: u64,
}

/// Sample `a` outran sample `b`: more items per unit of time, compared
/// without division (a zero-time sample counts as fastest).
pub open spec fn throughput_gt(a: WorkerSample, b: WorkerSample) -> bool {
    a.processed * b.elapsed_us > b.processed * a.elapsed_us
}

/// Whether sample `a` outran sample `b`.
fn sample_outran(a: &WorkerSample, b: &WorkerSample) -> (r: bool)
    ensures
        r == throughput_gt(*a, *b),
{
    proof {
        vstd::arithmetic::mul::lemma_mul_upper_bound(
            a.processed as int,
            u64::MAX as int,
            b.elapsed_us as int,
            u64::MAX as int,
        );
        vstd::arithmetic::mul::lemma_mul_upper_bound(
            b.processed as int,
            u64::MAX as int,
            a.elapsed_us as int,
            u64::MAX as int,
        );
    }
    (a.processed as u128) * (b.elapsed_us as u128) > (b.processed as u128) * (a.elapsed_us
        as u128)
}

/// The auto-tuner's decision: among the benchmark samples the embedding
/// measured (one per candidate worker count), pick the worker count of the
/// first sample with the highest throughput. The measuring loop itself —
/// running the task on sample data against the clock — lives in the
/// embedding; this rule is what it feeds the samples into.
pub fn auto_tune_workers(samples: &Vec<WorkerSample>) -> (r: Option<usize>)
    ensures
        match r {
            None => samples@.len() == 0,
            Some(w) => exists|i: int|
                0 <= i < samples@.len() && w == (#[trigger] samples@[i]).workers && (forall|j: int|
                    0 <= j < samples@.len() ==> !throughput_gt(
                        #[trigger] samples@[j],
                        samples@[i],
                    )),
        },
{
    if samples.len() == 0 {
        return None;
    }
    let mut best: usize = 0;
    let mut i: usize = 1;
    let n = samples.len();
    while i < n
        invariant
            n == samples@.len(),
            best < i <= n,
            forall|j: int| 0 <= j < i ==> !throughput_gt(#[trigger] samples@[j], samples@[best as int]),
        decreases n - i,
    {
        if sample_outran(&samples[i], &samples[best]) {
            proof {
                let ss = samples@;
                let sb = ss[best as int];
                let si = ss[i as int];
                assert forall|j: int| 0 <= j < i + 1 implies !throughput_gt(
                    #[trigger] ss[j],
                    si,
                ) by {
                    if j < i {
                        if throughput_gt(ss[j], si) {
                            lemma_throughput_trans(ss[j], si, sb);
                        }
                    }
                }
            }
            best = i;
        }
        i = i + 1;
    }
    Some(samples[best].workers)
}

/// The throughput order is transitive over positive times; a zero-time
/// sample dominates, which keeps the chain valid there too.
proof fn lemma_throughput_trans(a: WorkerSample, b: WorkerSample, c: WorkerSample)
    requires
        throughput_gt(a, b),
        throughput_gt(b, c),
    ensures
        throughput_gt(a, c),
{
    assert(a.processed * c.elapsed_us > c.processed * a.elapsed_us) by (nonlinear_arith)
        requires
            a.processed * b.elapsed_us > b.processed * a.elapsed_us,
            b.processed * c.elapsed_us > c.processed * b.elapsed_us,
            a.processed >= 0,
            b.processed >= 0,
            c.processed >= 0,
            a.elapsed_us >= 0,
            b.elapsed_us >= 0,
            c.elapsed_us >= 0,
    ;
}

} // verus!
