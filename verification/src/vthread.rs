//! The virtual-thread scheduler: an executor that multiplexes submitted
//! virtual threads onto a pool of carrier threads. Submissions are assigned
//! monotonically increasing identifiers, pushed into a shared FIFO injector
//! queue, and executed at most once; each virtual thread's record moves
//! through `Created`, `Runnable`, `Running` and `Terminated`, storing its
//! task's result exactly once, before `Terminated`, and `join` hands back
//! exactly that thread's stored result. Carrier threads live outside this
//! module: each carrier step is `run_next`, and the loop around it performs
//! the parking and waking that no contract here speaks of.

use vstd::prelude::*;

use crate::callable::{task_result_matches, TaskError};
use crate::error::{ErrorKind, ParallelError};
use crossbeam_deque::Injector;

verus! {

/// The identifier of a virtual thread: assigned from one upward, in
/// submission order.
pub type VirtualThreadId = u64;

#[verifier::external_type_specification]
#[verifier::external_body]
#[verifier::reject_recursive_types(T)]
pub struct ExInjector<T>(Injector<T>);

/// The identifiers held by an injector queue, front first.
pub uninterp spec fn injector_ids(q: Injector<u64>) -> Seq<u64>;

/// Relies on `crossbeam_deque::Injector::new`: a new injector queue is empty.
#[verifier::external_body]
fn injector_new() -> (r: Injector<u64>)
    ensures
        injector_ids(r) == Seq::<u64>::empty(),
{
    Injector::new()
}

/// Relies on `crossbeam_deque::Injector::push`: pushes one task onto the back
/// of the FIFO injector queue.
#[verifier::external_body]
fn injector_push(q: &mut Injector<u64>, id: u64)
    ensures
        injector_ids(*final(q)) == injector_ids(*old(q)).push(id),
{
    q.push(id)
}

/// Relies on `crossbeam_deque::Injector::steal`: a successful steal takes the
/// task at the front of the FIFO queue; the `Empty` and `Retry` outcomes take
/// nothing.
#[verifier::external_body]
fn injector_steal(q: &mut Injector<u64>) -> (r: Option<u64>)
    ensures
        match r {
            Some(id) => injector_ids(*old(q)).len() >= 1 && id == injector_ids(*old(q)).first()
                && injector_ids(*final(q)) == injector_ids(*old(q)).drop_first(),
            None => injector_ids(*final(q)) == injector_ids(*old(q)),
        },
{
    match q.steal() {
        crossbeam_deque::Steal::Success(id) => Some(id),
        _ => None,
    }
}

/// Relies on `num_cpus::get`: the number of logical processors, at least one.
#[verifier::external_body]
pub fn detect_cpu_count() -> (r: usize)
    ensures
        r >= 1,
{
    let n = num_cpus::get();
    if n >= 1 {
        n
    } else {
        1
    }
}

/// The state of a virtual thread. It only ever advances, in this order.
#[derive(Clone, Copy, Debug, PartialEq, Eq, Structural)]
pub enum VirtualThreadState {
    Created,
    Runnable,
    Running,
    Terminated,
}

/// The position of a state in the thread lifecycle.
pub open spec fn state_rank(s: VirtualThreadState) -> int {
    match s {
        VirtualThreadState::Created => 0,
        VirtualThreadState::Runnable => 1,
        VirtualThreadState::Running => 2,
        VirtualThreadState::Terminated => 3,
    }
}

/// A unit of work run by a virtual thread: executing it yields exactly the
/// result its specification names, and its blocking flag routes it to a
/// dedicated runtime so it cannot pin a carrier.
pub trait VirtualTask<R> {
    /// The result the task's execution yields: a value, or an error kind.
    spec fn spec_result(&self) -> Result<R, Seq<char>>;

    /// Whether the task may block its carrier.
    spec fn spec_blocking(&self) -> bool;

    /// Run the task. It is executed at most once per virtual thread.
    fn execute(&self) -> (r: Result<R, TaskError>)
        ensures
            task_result_matches(r, self.spec_result()),
    ;

    /// Whether the task may block its carrier.
    fn is_blocking(&self) -> (r: bool)
        ensures
            r == self.spec_blocking(),
    ;
}

/// One virtual thread: an identity, a lifecycle state, the task it runs, a
/// result slot filled exactly once, and its start and end timestamps.
pub struct VirtualThread<K, R> {
    pub id: VirtualThreadId,
    pub state: VirtualThreadState,
    pub task: K,
    pub result: Option<Result<R, TaskError>>,
    pub start_time_us: Option<u64>,
    pub end_time_us: Option<u64>,
}

impl<K: VirtualTask<R>, R> VirtualThread<K, R> {
    /// A thread record is well formed when its result slot is filled exactly
    /// for terminated threads, and whatever it holds is its own task's result.
    pub open spec fn wf(&self) -> bool {
        &&& self.state is Terminated <==> self.result is Some
        &&& self.result matches Some(r) ==> task_result_matches(r, self.task.spec_result())
    }

    /// Build a fresh thread record around a task.
    pub fn new(id: VirtualThreadId, task: K) -> (r: VirtualThread<K, R>)
        ensures
            r.id == id,
            r.state == VirtualThreadState::Created,
            r.task == task,
            r.result is None,
            r.start_time_us is None,
            r.end_time_us is None,
            r.wf(),
    {
        VirtualThread {
            id,
            state: VirtualThreadState::Created,
            task,
            result: None,
            start_time_us: None,
            end_time_us: None,
        }
    }

    /// This thread's identifier.
    pub fn id(&self) -> (r: VirtualThreadId)
        ensures
            r == self.id,
    {
        self.id
    }

    /// This thread's current state.
    pub fn state(&self) -> (r: VirtualThreadState)
        ensures
            r == self.state,
    {
        self.state
    }

    /// Advance the thread's state. States never regress, and `Terminated` can
    /// only be entered once the result slot is filled. Entering `Running`
    /// records the start timestamp; entering `Terminated` records the end.
    pub fn set_state(&mut self, new_state: VirtualThreadState, now_us: u64)
        requires
            state_rank(old(self).state) <= state_rank(new_state),
            new_state is Terminated ==> old(self).result is Some,
        ensures
            final(self).state == new_state,
            final(self).id == old(self).id,
            final(self).task == old(self).task,
            final(self).result == old(self).result,
            final(self).start_time_us == if new_state is Running {
                Some(now_us)
            } else {
                old(self).start_time_us
            },
            final(self).end_time_us == if new_state is Terminated {
                Some(now_us)
            } else {
                old(self).end_time_us
            },
            old(self).wf() ==> final(self).wf(),
    {
        self.state = new_state;
        match new_state {
            VirtualThreadState::Running => {
                self.start_time_us = Some(now_us);
            },
            VirtualThreadState::Terminated => {
                self.end_time_us = Some(now_us);
            },
            _ => {},
        }
    }

    /// Run this thread's task to completion: the state passes through
    /// `Running` into `Terminated`, and the task's result is stored in the
    /// result slot, exactly once, before termination.
    pub fn execute(&mut self, start_us: u64, end_us: u64)
        requires
            old(self).result is None,
            old(self).state !is Terminated,
        ensures
            final(self).id == old(self).id,
            final(self).task == old(self).task,
            final(self).state is Terminated,
            final(self).result matches Some(r) && task_result_matches(
                r,
                old(self).task.spec_result(),
            ),
            final(self).start_time_us == Some(start_us),
            final(self).end_time_us == Some(end_us),
            final(self).wf(),
    {
        self.set_state(VirtualThreadState::Running, start_us);
        let outcome = self.task.execute();
        self.result = Some(outcome);
        self.set_state(VirtualThreadState::Terminated, end_us);
    }

    /// Whether this thread's task may block its carrier.
    pub fn is_blocking(&self) -> (r: bool)
        ensures
            r == self.task.spec_blocking(),
    {
        self.task.is_blocking()
    }

    /// The stored result, if the thread has terminated.
    pub fn get_result(&self) -> (r: &Option<Result<R, TaskError>>)
        ensures
            r == &self.result,
    {
        &self.result
    }
}

/// How many records of a registry are terminated.
pub open spec fn count_terminated<K, R>(ts: Seq<VirtualThread<K, R>>) -> int
    decreases ts.len(),
{
    if ts.len() == 0 {
        0
    } else {
        count_terminated(ts.drop_last()) + if ts.last().state is Terminated {
            1int
        } else {
            0int
        }
    }
}

/// How many records of a registry are runnable.
pub open spec fn count_runnable<K, R>(ts: Seq<VirtualThread<K, R>>) -> int
    decreases ts.len(),
{
    if ts.len() == 0 {
        0
    } else {
        count_runnable(ts.drop_last()) + if ts.last().state is Runnable {
            1int
        } else {
            0int
        }
    }
}

/// The returned value `v` is a clone of the value inside a successful task
/// result `res`.
pub open spec fn clone_of_ok<R: Clone>(res: Result<R, Seq<char>>, v: R) -> bool {
    res is Ok && cloned(res->Ok_0, v)
}

/// Position `i` of the identifier list names the first failing task: its
/// task's result is the error of kind `kind`, and every earlier identifier's
/// task succeeds.
pub open spec fn first_failure_at<K: VirtualTask<R>, R>(
    threads: Seq<VirtualThread<K, R>>,
    ids: Seq<u64>,
    kind: Seq<char>,
    i: int,
) -> bool {
    &&& 0 <= i < ids.len()
    &&& threads[ids[i] - 1].task.spec_result() == Err::<R, Seq<char>>(kind)
    &&& forall|q: int| 0 <= q < i ==> threads[#[trigger] ids[q] - 1].task.spec_result() is Ok
}

/// The virtual-thread executor: a registry of every submitted virtual
/// thread, a shared FIFO injector queue of the runnable ones, and the
/// counters the scheduler reports.
pub struct VirtualThreadExecutor<K, R> {
    pub is_running: bool,
    pub max_platform_threads: usize,
    pub virtual_threads: Vec<VirtualThread<K, R>>,
    pub work_queue: Injector<u64>,
    pub next_thread_id: u64,
    pub total_threads_created: u64,
    pub active_threads: usize,
    pub completed_threads: u64,
}

impl<K: VirtualTask<R>, R> VirtualThreadExecutor<K, R> {
    /// The queue of runnable identifiers, front first.
    pub open spec fn qids(&self) -> Seq<u64> {
        injector_ids(self.work_queue)
    }

    /// The registry view.
    pub open spec fn threads(&self) -> Seq<VirtualThread<K, R>> {
        self.virtual_threads@
    }

    /// The executor's invariant. Identifiers are assigned densely from one
    /// upward and index the registry; every record is well formed; between
    /// scheduler steps no thread is mid-run, so the active counter is zero
    /// and every record is either runnable or terminated; the completed
    /// counter counts the terminated records; the injector holds runnable
    /// identifiers in submission order, without duplicates, and while the
    /// executor runs it holds every runnable identifier.
    pub open spec fn wf(&self) -> bool {
        &&& self.next_thread_id == self.threads().len() + 1
        &&& self.total_threads_created == self.threads().len()
        &&& self.threads().len() + 1 <= u64::MAX
        &&& forall|i: int|
            0 <= i < self.threads().len() ==> (#[trigger] self.threads()[i]).id == i + 1
        &&& forall|i: int| 0 <= i < self.threads().len() ==> (#[trigger] self.threads()[i]).wf()
        &&& forall|i: int|
            0 <= i < self.threads().len() ==> ((#[trigger] self.threads()[i]).state is Runnable
                || self.threads()[i].state is Terminated)
        &&& self.active_threads == 0
        &&& self.completed_threads == count_terminated(self.threads())
        &&& forall|k: int|
            0 <= k < self.qids().len() ==> 1 <= #[trigger] self.qids()[k] <= self.threads().len()
        &&& forall|k: int|
            0 <= k < self.qids().len() ==> (#[trigger] self.threads()[self.qids()[k] - 1]).state
                is Runnable
        &&& forall|k1: int, k2: int|
            0 <= k1 < k2 < self.qids().len() ==> #[trigger] self.qids()[k1] < #[trigger] self.qids()[k2]
        &&& self.is_running ==> self.queue_complete()
    }

    /// Every runnable thread is waiting in the injector queue. This holds
    /// whenever the executor runs; `shutdown` gives it up when it drops the
    /// queued work, which is why a stopped executor cannot be started again
    /// with work still pending.
    pub open spec fn queue_complete(&self) -> bool {
        forall|i: int|
            0 <= i < self.threads().len() && (#[trigger] self.threads()[i]).state is Runnable
                ==> self.qids().contains((i + 1) as u64)
    }

    /// Whether an identifier was ever issued by this executor.
    pub open spec fn issued(&self, id: u64) -> bool {
        1 <= id < self.next_thread_id
    }

    /// Build an executor with the given carrier budget (or one carrier per
    /// logical processor). It starts stopped, with an empty registry and an
    /// empty queue.
    pub fn new(max_virtual_threads: Option<usize>, max_platform_threads: Option<usize>) -> (r:
        VirtualThreadExecutor<K, R>)
        ensures
            r.wf(),
            !r.is_running,
            r.queue_complete(),
            r.threads().len() == 0,
            r.qids().len() == 0,
            r.max_platform_threads >= 1,
            max_platform_threads is Some && max_platform_threads->0 >= 1
                ==> r.max_platform_threads == max_platform_threads->0,
    {
        let platform = match max_platform_threads {
            Some(p) => {
                if p >= 1 {
                    p
                } else {
                    1
                }
            },
            None => detect_cpu_count(),
        };
        let _ = max_virtual_threads;
        VirtualThreadExecutor {
            is_running: false,
            max_platform_threads: platform,
            virtual_threads: Vec::new(),
            work_queue: injector_new(),
            next_thread_id: 1,
            total_threads_created: 0,
            active_threads: 0,
            completed_threads: 0,
        }
    }

    /// Start the executor: submissions are accepted from here on. The carrier
    /// threads themselves are driven by the embedding, each looping on
    /// `run_next`.
    pub fn start(&mut self)
        requires
            old(self).wf(),
            old(self).queue_complete(),
        ensures
            final(self).wf(),
            final(self).is_running,
            final(self).threads() == old(self).threads(),
            final(self).qids() == old(self).qids(),
            final(self).next_thread_id == old(self).next_thread_id,
            final(self).completed_threads == old(self).completed_threads,
            final(self).max_platform_threads == old(self).max_platform_threads,
    {
        self.is_running = true;
    }

    /// Whether the executor is running.
    pub fn is_running(&self) -> (r: bool)
        ensures
            r == self.is_running,
    {
        self.is_running
    }

    /// Submit one task as a new virtual thread. While the executor runs, the
    /// submission is assigned the next identifier, registered as `Runnable`
    /// and pushed into the injector queue; on a stopped executor it is
    /// rejected with an `InvalidState` error and nothing changes.
    pub fn submit_virtual_task(&mut self, task: K) -> (r: Result<VirtualThreadId, ParallelError>)
        requires
            old(self).wf(),
            old(self).threads().len() + 2 <= u64::MAX,
        ensures
            final(self).wf(),
            final(self).is_running == old(self).is_running,
            final(self).max_platform_threads == old(self).max_platform_threads,
            !old(self).is_running ==> (r matches Err(e) && e.kind == ErrorKind::InvalidState)
                && final(self).threads() == old(self).threads()
                && final(self).qids() == old(self).qids()
                && final(self).next_thread_id == old(self).next_thread_id
                && final(self).completed_threads == old(self).completed_threads,
            old(self).is_running ==> {
                &&& r == Ok::<VirtualThreadId, ParallelError>(old(self).next_thread_id)
                &&& final(self).next_thread_id == old(self).next_thread_id + 1
                &&& final(self).threads() =~= old(self).threads().push(final(self).threads().last())
                &&& final(self).threads().last().task == task
                &&& final(self).threads().last().state is Runnable
                &&& final(self).threads().last().result is None
                &&& final(self).threads().last().id == old(self).next_thread_id
                &&& final(self).qids() == old(self).qids().push(old(self).next_thread_id)
                &&& final(self).completed_threads == old(self).completed_threads
            },
    {
        if !self.is_running {
            return Err(ParallelError::new(ErrorKind::InvalidState));
        }
        let id = self.next_thread_id;
        let mut vthread = VirtualThread::new(id, task);
        vthread.set_state(VirtualThreadState::Runnable, 0);
        let ghost pre_threads = self.virtual_threads@;
        let ghost pre_qids = self.qids();
        self.virtual_threads.push(vthread);
        injector_push(&mut self.work_queue, id);
        self.next_thread_id = self.next_thread_id + 1;
        self.total_threads_created = self.total_threads_created + 1;
        proof {
            lemma_count_terminated_push(pre_threads, self.virtual_threads@.last());
            assert forall|k: int|
                0 <= k < self.qids().len() && self.qids()[k]
                    <= pre_threads.len() implies (#[trigger] self.threads()[self.qids()[k]
                - 1]).state is Runnable by {
                assert(self.threads()[self.qids()[k] - 1] == pre_threads[self.qids()[k] - 1]);
            }
            assert forall|i: int|
                0 <= i < self.threads().len() && (#[trigger] self.threads()[i]).state
                    is Runnable implies self.qids().contains((i + 1) as u64) by {
                if i < pre_threads.len() {
                    assert(pre_qids.contains((i + 1) as u64));
                    let k = choose|k: int|
                        0 <= k < pre_qids.len() && pre_qids[k] == (i + 1) as u64;
                    assert(self.qids()[k] == (i + 1) as u64);
                } else {
                    assert(self.qids().last() == (i + 1) as u64);
                }
            }
        }
        Ok(id)
    }

    /// One carrier step: steal the task at the front of the injector queue
    /// and run its virtual thread to completion, storing its result and
    /// counting it completed. Returns the identifier of the thread it ran, or
    /// nothing when the steal came back empty, in which case the executor is
    /// unchanged (the embedding's carrier loop then parks briefly).
    pub fn run_next(&mut self, now_us: u64) -> (r: Option<VirtualThreadId>)
        requires
            old(self).wf(),
        ensures
            final(self).wf(),
            final(self).is_running == old(self).is_running,
            final(self).max_platform_threads == old(self).max_platform_threads,
            final(self).next_thread_id == old(self).next_thread_id,
            final(self).threads().len() == old(self).threads().len(),
            forall|j: int|
                0 <= j < final(self).threads().len() ==> (#[trigger] final(self).threads()[j]).task
                    == old(self).threads()[j].task
                    && final(self).threads()[j].id == old(self).threads()[j].id,
            forall|j: int|
                0 <= j < final(self).threads().len() && old(self).threads()[j].state
                    is Terminated ==> #[trigger] final(self).threads()[j] == old(self).threads()[j],
            match r {
                None => final(self).threads() == old(self).threads()
                    && final(self).qids() == old(self).qids()
                    && final(self).completed_threads == old(self).completed_threads,
                Some(id) => {
                    &&& old(self).qids().len() >= 1
                    &&& id == old(self).qids().first()
                    &&& final(self).qids() == old(self).qids().drop_first()
                    &&& 1 <= id <= final(self).threads().len()
                    &&& final(self).threads()[id - 1].state is Terminated
                    &&& final(self).threads()[id - 1].result matches Some(res)
                        && task_result_matches(res, old(self).threads()[id - 1].task.spec_result())
                    &&& final(self).threads() =~= old(self).threads().update(id - 1, final(self).threads()[id - 1])
                    &&& final(self).completed_threads == old(self).completed_threads + 1
                },
            },
    {
        let stolen = injector_steal(&mut self.work_queue);
        match stolen {
            None => None,
            Some(id) => {
                let ghost pre_threads = self.virtual_threads@;
                let ghost pre_qids = injector_ids(old(self).work_queue);
                proof {
                    assert(id == pre_qids.first());
                    assert(1 <= pre_qids[0] <= old(self).threads().len());
                    assert(old(self).threads()[old(self).qids()[0] - 1].state is Runnable);
                    assert(pre_threads[id - 1].wf());
                    lemma_count_terminated_bound(pre_threads);
                }
                let n_threads = self.virtual_threads.len();
                proof {
                    assert(id <= n_threads);
                }
                let idx = (id - 1) as usize;
                self.active_threads = self.active_threads + 1;
                let mut vthread = self.virtual_threads.remove(idx);
                proof {
                    assert(vthread == pre_threads[id - 1]);
                    assert(vthread.state is Runnable);
                    assert(vthread.result is None);
                }
                vthread.execute(now_us, now_us);
                self.virtual_threads.insert(idx, vthread);
                self.active_threads = self.active_threads - 1;
                self.completed_threads = self.completed_threads + 1;
                proof {
                    assert(self.virtual_threads@ =~= pre_threads.update(
                        id - 1,
                        self.virtual_threads@[id - 1],
                    ));
                    lemma_count_terminated_update(
                        pre_threads,
                        self.virtual_threads@,
                        id - 1,
                    );
                    assert forall|k1: int, k2: int|
                        0 <= k1 < k2 < self.qids().len() implies #[trigger] self.qids()[k1]
                        < #[trigger] self.qids()[k2] by {
                        assert(pre_qids[k1 + 1] == self.qids()[k1]);
                        assert(pre_qids[k2 + 1] == self.qids()[k2]);
                    }
                    assert forall|k: int|
                        0 <= k < self.qids().len() implies 1 <= #[trigger] self.qids()[k]
                        <= self.threads().len() && self.threads()[self.qids()[k] - 1].state
                        is Runnable by {
                        assert(pre_qids[k + 1] == self.qids()[k]);
                        assert(pre_qids[0] < pre_qids[k + 1]);
                        assert(self.threads()[self.qids()[k] - 1] == pre_threads[self.qids()[k]
                            - 1]);
                    }
                    if self.is_running {
                        assert forall|i: int|
                            0 <= i < self.threads().len() && (#[trigger] self.threads()[i]).state
                                is Runnable implies self.qids().contains((i + 1) as u64) by {
                            assert(pre_threads[i].state is Runnable);
                            assert(pre_qids.contains((i + 1) as u64));
                            let k = choose|k: int|
                                0 <= k < pre_qids.len() && pre_qids[k] == (i + 1) as u64;
                            assert(k != 0);
                            assert(self.qids()[k - 1] == (i + 1) as u64);
                        }
                    }
                }
                Some(id)
            },
        }
    }

    /// Block the caller until the thread reaches `Terminated` (by driving the
    /// scheduler), then return exactly that thread's stored result: its
    /// task's value, its task's error surfaced as `TaskFailed`, a `NotFound`
    /// error for an identifier that was never issued, or `Timeout` when the
    /// queue yields no more work before the thread terminates — never another
    /// task's value.
    pub fn join(&mut self, id: VirtualThreadId, now_us: u64) -> (r: Result<R, ParallelError>)
        where
            R: Clone,
        requires
            old(self).wf(),
        ensures
            final(self).wf(),
            final(self).is_running == old(self).is_running,
            final(self).next_thread_id == old(self).next_thread_id,
            final(self).threads().len() == old(self).threads().len(),
            forall|j: int|
                0 <= j < final(self).threads().len() ==> (#[trigger] final(self).threads()[j]).task
                    == old(self).threads()[j].task,
            !old(self).issued(id) <==> (r matches Err(e) && e.kind == ErrorKind::NotFound),
            !old(self).issued(id) ==> *final(self) == *old(self),
            old(self).issued(id) && r is Ok ==> clone_of_ok(
                old(self).threads()[id - 1].task.spec_result(),
                r->Ok_0,
            ),
            old(self).issued(id) && r is Err ==> (r->Err_0.kind == ErrorKind::TaskFailed && old(
                self,
            ).threads()[id - 1].task.spec_result() == Err::<R, Seq<char>>(r->Err_0.message@))
                || r->Err_0.kind == ErrorKind::Timeout,
    {
        if id == 0 || id >= self.next_thread_id {
            return Err(ParallelError::new(ErrorKind::NotFound));
        }
        let n0 = self.virtual_threads.len();
        proof {
            assert(id <= n0);
        }
        let idx = (id - 1) as usize;
        let ghost orig = *self;
        let mut outcome: Result<R, ParallelError> = Err(ParallelError::new(ErrorKind::Timeout));
        loop
            invariant_except_break
                self.wf(),
                self.is_running == orig.is_running,
                self.next_thread_id == orig.next_thread_id,
                self.threads().len() == orig.threads().len(),
                forall|j: int|
                    0 <= j < self.threads().len() ==> (#[trigger] self.threads()[j]).task
                        == orig.threads()[j].task,
                orig.issued(id),
                idx == id - 1,
            ensures
                self.wf(),
                self.is_running == orig.is_running,
                self.next_thread_id == orig.next_thread_id,
                self.threads().len() == orig.threads().len(),
                forall|j: int|
                    0 <= j < self.threads().len() ==> (#[trigger] self.threads()[j]).task
                        == orig.threads()[j].task,
                outcome is Ok ==> clone_of_ok(
                    orig.threads()[id - 1].task.spec_result(),
                    outcome->Ok_0,
                ),
                outcome matches Err(e) ==> (e.kind == ErrorKind::TaskFailed
                    && orig.threads()[id - 1].task.spec_result() == Err::<R, Seq<char>>(e.message@))
                    || e.kind == ErrorKind::Timeout,
            decreases self.qids().len(),
        {
            let n_threads = self.virtual_threads.len();
            proof {
                assert(id <= n_threads);
            }
            let current = self.virtual_threads[idx].state;
            if current == VirtualThreadState::Terminated {
                proof {
                    assert(self.threads()[id - 1].wf());
                }
                match &self.virtual_threads[idx].result {
                    Some(stored) => match stored {
                        Ok(v) => {
                            let out = v.clone();
                            proof {
                                assert(self.threads()[id - 1].task.spec_result() == Ok::<
                                    R,
                                    Seq<char>,
                                >(*v));
                                assert(cloned(*v, out));
                                assert(orig.threads()[id - 1].task == self.threads()[id - 1].task);
                                assert(clone_of_ok(
                                    orig.threads()[id - 1].task.spec_result(),
                                    out,
                                ));
                            }
                            outcome = Ok(out);
                            break;
                        },
                        Err(te) => {
                            proof {
                                assert(self.threads()[id - 1].task.spec_result() == Err::<
                                    R,
                                    Seq<char>,
                                >(te.kind_name@));
                            }
                            outcome = Err(
                                ParallelError::with_message(
                                    ErrorKind::TaskFailed,
                                    te.kind_name.clone(),
                                ),
                            );
                            break;
                        },
                    },
                    None => {
                        proof {
                            assert(false);
                        }
                        break;
                    },
                }
            }
            match self.run_next(now_us) {
                Some(_) => {},
                None => {
                    outcome = Err(ParallelError::new(ErrorKind::Timeout));
                    break;
                },
            }
        }
        proof {
            assert(orig == *old(self));
        }
        outcome
    }

    /// Join every identifier in order, returning the values in the given
    /// order; the first failure surfaces and abandons the rest (their results
    /// remain retrievable from the registry).
    pub fn join_all(&mut self, ids: Vec<VirtualThreadId>, now_us: u64) -> (r: Result<
        Vec<R>,
        ParallelError,
    >)
        where
            R: Clone,
        requires
            old(self).wf(),
        ensures
            final(self).wf(),
            final(self).is_running == old(self).is_running,
            final(self).next_thread_id == old(self).next_thread_id,
            final(self).threads().len() == old(self).threads().len(),
            forall|j: int|
                0 <= j < final(self).threads().len() ==> (#[trigger] final(self).threads()[j]).task
                    == old(self).threads()[j].task,
            r matches Ok(vs) ==> vs@.len() == ids@.len() && forall|i: int|
                0 <= i < ids@.len() ==> old(self).issued(#[trigger] ids@[i]) && clone_of_ok(
                    old(self).threads()[ids@[i] - 1].task.spec_result(),
                    vs@[i],
                ),
            r matches Err(e) ==> e.kind == ErrorKind::NotFound || e.kind == ErrorKind::Timeout || (
            e.kind == ErrorKind::TaskFailed && exists|i: int|
                #[trigger] first_failure_at(old(self).threads(), ids@, e.message@, i)),
            r matches Err(e) && e.kind == ErrorKind::NotFound ==> exists|i: int|
                0 <= i < ids@.len() && !old(self).issued(#[trigger] ids@[i]),
    {
        let ghost orig = *self;
        let mut results: Vec<R> = Vec::new();
        let mut failure: Option<ParallelError> = None;
        let ghost mut fail_idx: int = 0;
        let mut k: usize = 0;
        while k < ids.len()
            invariant_except_break
                self.wf(),
                self.is_running == orig.is_running,
                self.next_thread_id == orig.next_thread_id,
                self.threads().len() == orig.threads().len(),
                forall|j: int|
                    0 <= j < self.threads().len() ==> (#[trigger] self.threads()[j]).task
                        == orig.threads()[j].task,
                k <= ids@.len(),
                results@.len() == k,
                failure is None,
                forall|i: int|
                    0 <= i < k ==> orig.issued(#[trigger] ids@[i]) && clone_of_ok(
                        orig.threads()[ids@[i] - 1].task.spec_result(),
                        results@[i],
                    ),
            ensures
                self.wf(),
                self.is_running == orig.is_running,
                self.next_thread_id == orig.next_thread_id,
                self.threads().len() == orig.threads().len(),
                forall|j: int|
                    0 <= j < self.threads().len() ==> (#[trigger] self.threads()[j]).task
                        == orig.threads()[j].task,
                failure is None ==> {
                    &&& k == ids@.len()
                    &&& results@.len() == k
                    &&& forall|i: int|
                        0 <= i < k ==> orig.issued(#[trigger] ids@[i]) && clone_of_ok(
                            orig.threads()[ids@[i] - 1].task.spec_result(),
                            results@[i],
                        )
                },
                failure matches Some(e) ==> e.kind == ErrorKind::NotFound || e.kind
                    == ErrorKind::Timeout || (e.kind == ErrorKind::TaskFailed && 0 <= fail_idx
                    < ids@.len() && orig.threads()[ids@[fail_idx] - 1].task.spec_result() == Err::<
                    R,
                    Seq<char>,
                >(e.message@) && (forall|q: int|
                    0 <= q < fail_idx ==> orig.threads()[#[trigger] ids@[q]
                        - 1].task.spec_result() is Ok)),
                failure matches Some(e) && e.kind == ErrorKind::NotFound ==> 0 <= fail_idx
                    < ids@.len() && !orig.issued(ids@[fail_idx]),
            decreases ids@.len() - k,
        {
            let ghost pre_self = *self;
            let ghost the_id = ids@[k as int];
            match self.join(ids[k], now_us) {
                Ok(v) => {
                    proof {
                        assert(pre_self.issued(the_id));
                        assert(pre_self.threads()[the_id - 1].task == orig.threads()[the_id
                            - 1].task);
                        assert(clone_of_ok(orig.threads()[the_id - 1].task.spec_result(), v));
                    }
                    results.push(v);
                    k = k + 1;
                },
                Err(e) => {
                    proof {
                        fail_idx = k as int;
                        if e.kind is TaskFailed {
                            assert(pre_self.issued(the_id));
                            assert(pre_self.threads()[the_id - 1].task == orig.threads()[the_id
                                - 1].task);
                            assert(orig.threads()[the_id - 1].task.spec_result() == Err::<
                                R,
                                Seq<char>,
                            >(e.message@));
                            assert forall|q: int|
                                0 <= q < fail_idx implies orig.threads()[#[trigger] ids@[q]
                                - 1].task.spec_result() is Ok by {
                                assert(clone_of_ok(
                                    orig.threads()[ids@[q] - 1].task.spec_result(),
                                    results@[q],
                                ));
                            }
                        }
                        if e.kind is NotFound {
                            assert(!pre_self.issued(the_id));
                            assert(!orig.issued(the_id));
                        }
                    }
                    failure = Some(e);
                    break;
                },
            }
        }
        proof {
            assert(orig == *old(self));
        }
        match failure {
            Some(e) => {
                proof {
                    if e.kind is TaskFailed {
                        assert(first_failure_at(old(self).threads(), ids@, e.message@, fail_idx));
                        assert(exists|i: int|
                            #[trigger] first_failure_at(
                                old(self).threads(),
                                ids@,
                                e.message@,
                                i,
                            ));
                    }
                    if e.kind is NotFound {
                        assert(!old(self).issued(ids@[fail_idx]));
                    }
                }
                Err(e)
            },
            None => Ok(results),
        }
    }

    /// The lifecycle state of a virtual thread, or `NotFound` for an
    /// identifier that was never issued.
    pub fn get_thread_state(&self, id: VirtualThreadId) -> (r: Result<
        VirtualThreadState,
        ParallelError,
    >)
        requires
            self.wf(),
        ensures
            self.issued(id) ==> r == Ok::<VirtualThreadState, ParallelError>(
                self.threads()[id - 1].state,
            ),
            !self.issued(id) ==> (r matches Err(e) && e.kind == ErrorKind::NotFound),
    {
        if id == 0 || id >= self.next_thread_id {
            return Err(ParallelError::new(ErrorKind::NotFound));
        }
        let n_threads = self.virtual_threads.len();
        proof {
            assert(id <= n_threads);
        }
        let idx = (id - 1) as usize;
        Ok(self.virtual_threads[idx].state)
    }

    /// The scheduler's counters: total threads created, threads active right
    /// now, threads completed, and the carrier budget.
    pub fn get_stats(&self) -> (r: (u64, usize, u64, usize))
        ensures
            r.0 == self.total_threads_created,
            r.1 == self.active_threads,
            r.2 == self.completed_threads,
            r.3 == self.max_platform_threads,
    {
        (
            self.total_threads_created,
            self.active_threads,
            self.completed_threads,
            self.max_platform_threads,
        )
    }

    /// The number of virtual threads running at this observation point.
    pub fn active_thread_count(&self) -> (r: usize)
        ensures
            r == self.active_threads,
    {
        self.active_threads
    }

    /// How many virtual threads were ever created.
    pub fn total_thread_count(&self) -> (r: u64)
        ensures
            r == self.total_threads_created,
    {
        self.total_threads_created
    }

    /// How many virtual threads have completed.
    pub fn completed_thread_count(&self) -> (r: u64)
        ensures
            r == self.completed_threads,
    {
        self.completed_threads
    }

    /// Stop the executor: no further submissions are accepted, no thread is
    /// left mid-run, and the injected-but-unstarted work is dropped. The
    /// registry and its stored results stay retrievable. The embedding joins
    /// its carrier threads once their loops observe the stopped flag.
    pub fn shutdown(&mut self)
        requires
            old(self).wf(),
        ensures
            final(self).wf(),
            !final(self).is_running,
            final(self).active_threads == 0,
            final(self).qids().len() == 0,
            final(self).threads() == old(self).threads(),
            final(self).next_thread_id == old(self).next_thread_id,
            final(self).completed_threads == old(self).completed_threads,
            final(self).max_platform_threads == old(self).max_platform_threads,
    {
        self.is_running = false;
        self.work_queue = injector_new();
    }

    /// Submit many tasks at once, in order; the identifiers come back in the
    /// same order. On a stopped executor nothing is submitted and an
    /// `InvalidState` error is raised.
    pub fn submit_many(&mut self, tasks: Vec<K>) -> (r: Result<Vec<VirtualThreadId>, ParallelError>)
        requires
            old(self).wf(),
            old(self).threads().len() + tasks@.len() + 1 <= u64::MAX,
        ensures
            final(self).wf(),
            final(self).is_running == old(self).is_running,
            !old(self).is_running ==> (r matches Err(e) && e.kind == ErrorKind::InvalidState)
                && final(self).threads() == old(self).threads()
                && final(self).next_thread_id == old(self).next_thread_id,
            old(self).is_running ==> {
                &&& r matches Ok(ids)
                &&& ids@.len() == tasks@.len()
                &&& forall|i: int|
                    0 <= i < ids@.len() ==> #[trigger] ids@[i] == old(self).next_thread_id + i
                &&& final(self).next_thread_id == old(self).next_thread_id + tasks@.len()
                &&& final(self).threads().len() == old(self).threads().len() + tasks@.len()
                &&& forall|j: int|
                    0 <= j < old(self).threads().len() ==> #[trigger] final(self).threads()[j]
                        == old(self).threads()[j]
                &&& forall|i: int|
                    0 <= i < tasks@.len() ==> (#[trigger] final(self).threads()[old(
                        self,
                    ).threads().len() + i]).task == tasks@[i] && final(self).threads()[old(
                        self,
                    ).threads().len() + i].state is Runnable
            },
    {
        if !self.is_running {
            return Err(ParallelError::new(ErrorKind::InvalidState));
        }
        let ghost orig = *self;
        let ghost n = tasks@.len();
        let ghost all_tasks = tasks@;
        let total = tasks.len();
        let mut rest = tasks;
        let mut ids: Vec<VirtualThreadId> = Vec::new();
        let mut k: usize = 0;
        while rest.len() > 0
            invariant
                self.wf(),
                self.is_running,
                k + rest@.len() == n,
                n == all_tasks.len(),
                n == total,
                orig.is_running,
                orig.wf(),
                orig.threads().len() + n + 1 <= u64::MAX,
                self.threads().len() == orig.threads().len() + k,
                self.next_thread_id == orig.next_thread_id + k,
                ids@.len() == k,
                forall|i: int|
                    0 <= i < k ==> #[trigger] ids@[i] == orig.next_thread_id + i,
                forall|j: int|
                    0 <= j < orig.threads().len() ==> #[trigger] self.threads()[j]
                        == orig.threads()[j],
                rest@ == all_tasks.skip(k as int),
                forall|i: int|
                    0 <= i < k ==> (#[trigger] self.threads()[orig.threads().len() + i]).task
                        == all_tasks[i] && self.threads()[orig.threads().len() + i].state
                        is Runnable,
            decreases rest@.len(),
        {
            proof {
                assert(all_tasks.skip(k as int)[0] == all_tasks[k as int]);
            }
            let task = rest.remove(0);
            proof {
                assert(rest@ =~= all_tasks.skip(k + 1 as int));
            }
            match self.submit_virtual_task(task) {
                Ok(id) => {
                    ids.push(id);
                    k = k + 1;
                },
                Err(_) => {
                    proof {
                        assert(false);
                    }
                },
            }
        }
        proof {
            assert(orig == *old(self));
        }
        Ok(ids)
    }
}

/// Build an executor with the given carrier budget.
pub fn create_virtual_thread_executor<K: VirtualTask<R>, R>(
    max_virtual_threads: Option<usize>,
    max_platform_threads: Option<usize>,
) -> (r: VirtualThreadExecutor<K, R>)
    ensures
        r.wf(),
        !r.is_running,
        r.queue_complete(),
        r.threads().len() == 0,
        r.qids().len() == 0,
        r.max_platform_threads >= 1,
{
    VirtualThreadExecutor::new(max_virtual_threads, max_platform_threads)
}

/// Run one task on a fresh single-carrier executor and hand back its result:
/// the task's value, its error surfaced as `TaskFailed`, or `Timeout` when
/// the scheduler yields no more work before the thread terminates.
pub fn execute_in_virtual_thread<K: VirtualTask<R>, R: Clone>(task: K, now_us: u64) -> (r: Result<
    R,
    ParallelError,
>)
    ensures
        r is Ok ==> clone_of_ok(task.spec_result(), r->Ok_0),
        r matches Err(e) ==> (e.kind == ErrorKind::TaskFailed && task.spec_result() == Err::<
            R,
            Seq<char>,
        >(e.message@)) || e.kind == ErrorKind::Timeout,
{
    let mut executor: VirtualThreadExecutor<K, R> = VirtualThreadExecutor::new(None, Some(1));
    executor.start();
    let ghost pre = executor;
    let submitted = executor.submit_virtual_task(task);
    match submitted {
        Ok(id) => {
            proof {
                assert(executor.threads()[id - 1].task == task);
            }
            let outcome = executor.join(id, now_us);
            executor.shutdown();
            outcome
        },
        Err(_) => {
            proof {
                assert(false);
            }
            Err(ParallelError::new(ErrorKind::InvalidState))
        },
    }
}

/// Run one task per item on a fresh executor and collect the results in
/// submission order: on success, the value at each position is the result of
/// exactly the task submitted at that position.
pub fn virtual_thread_map<K: VirtualTask<R>, R: Clone>(
    tasks: Vec<K>,
    max_platform_threads: Option<usize>,
    now_us: u64,
) -> (r: Result<Vec<R>, ParallelError>)
    requires
        tasks@.len() + 1 <= u64::MAX,
    ensures
        r matches Ok(vs) ==> vs@.len() == tasks@.len() && forall|i: int|
            0 <= i < tasks@.len() ==> clone_of_ok(
                (#[trigger] tasks@[i]).spec_result(),
                vs@[i],
            ),
        r matches Err(e) ==> e.kind == ErrorKind::NotFound || e.kind == ErrorKind::Timeout || (
        e.kind == ErrorKind::TaskFailed && exists|i: int|
            0 <= i < tasks@.len() && (#[trigger] tasks@[i]).spec_result() == Err::<R, Seq<char>>(
                e.message@,
            )),
{
    let ghost all_tasks = tasks@;
    let mut executor: VirtualThreadExecutor<K, R> = VirtualThreadExecutor::new(
        None,
        max_platform_threads,
    );
    executor.start();
    let ghost pre = executor;
    match executor.submit_many(tasks) {
        Ok(ids) => {
            proof {
                assert(executor.threads().len() == all_tasks.len());
                assert forall|i: int| 0 <= i < ids@.len() implies #[trigger] ids@[i] == i + 1 by {}
                assert forall|i: int|
                    0 <= i < all_tasks.len() implies (#[trigger] executor.threads()[i]).task
                    == all_tasks[i] by {
                    assert(executor.threads()[pre.threads().len() + i].task == all_tasks[i]);
                }
            }
            let ghost mid = executor;
            let joined = executor.join_all(ids, now_us);
            executor.shutdown();
            match joined {
                Ok(vs) => {
                    proof {
                        assert forall|i: int| 0 <= i < all_tasks.len() implies clone_of_ok(
                            (#[trigger] all_tasks[i]).spec_result(),
                            vs@[i],
                        ) by {
                            assert(ids@[i] == i + 1);
                            assert(clone_of_ok(
                                mid.threads()[ids@[i] - 1].task.spec_result(),
                                vs@[i],
                            ));
                        }
                    }
                    Ok(vs)
                },
                Err(e) => {
                    proof {
                        if e.kind is TaskFailed {
                            let i = choose|i: int|
                                0 <= i < ids@.len() && mid.threads()[#[trigger] ids@[i]
                                    - 1].task.spec_result() == Err::<R, Seq<char>>(e.message@);
                            assert(ids@[i] == i + 1);
                            assert(all_tasks[i].spec_result() == Err::<R, Seq<char>>(e.message@));
                        }
                    }
                    Err(e)
                },
            }
        },
        Err(_) => {
            proof {
                assert(false);
            }
            Err(ParallelError::new(ErrorKind::InvalidState))
        },
    }
}

/// Every completed virtual thread is terminated with its result slot
/// filled, and what the slot holds is exactly its own task's result.
pub proof fn lemma_terminated_thread_has_result<K: VirtualTask<R>, R>(
    ex: &VirtualThreadExecutor<K, R>,
    id: u64,
)
    requires
        ex.wf(),
        ex.issued(id),
        ex.threads()[id - 1].state is Terminated,
    ensures
        ex.threads()[id - 1].result is Some,
        task_result_matches(
            ex.threads()[id - 1].result->0,
            ex.threads()[id - 1].task.spec_result(),
        ),
{
    assert(ex.threads()[id - 1].wf());
}

/// Scheduler accounting: at any observation point, the completed, active and
/// still-queued (runnable) threads together account for every thread ever
/// created.
pub proof fn lemma_thread_accounting<K: VirtualTask<R>, R>(ex: &VirtualThreadExecutor<K, R>)
    requires
        ex.wf(),
    ensures
        ex.completed_threads + ex.active_threads + count_runnable(ex.threads())
            == ex.total_threads_created,
{
    lemma_counts_partition(ex.threads());
}

/// In a registry whose records are each runnable or terminated, the two
/// counts partition the registry.
proof fn lemma_counts_partition<K, R>(ts: Seq<VirtualThread<K, R>>)
    requires
        forall|i: int|
            0 <= i < ts.len() ==> ((#[trigger] ts[i]).state is Runnable || ts[i].state
                is Terminated),
    ensures
        count_runnable(ts) + count_terminated(ts) == ts.len(),
    decreases ts.len(),
{
    if ts.len() > 0 {
        assert(forall|i: int|
            0 <= i < ts.drop_last().len() ==> #[trigger] ts.drop_last()[i] == ts[i]);
        lemma_counts_partition(ts.drop_last());
    }
}

/// A ready-made task: squares a signed 64-bit integer, surfacing overflow as
/// a task error.
pub struct SquareTask {
    pub x: i64,
    pub blocking: bool,
}

impl VirtualTask<i64> for SquareTask {
    open spec fn spec_result(&self) -> Result<i64, Seq<char>> {
        if i64::MIN <= self.x * self.x <= i64::MAX {
            Ok((self.x * self.x) as i64)
        } else {
            Err(crate::callable::overflow_kind_name())
        }
    }

    open spec fn spec_blocking(&self) -> bool {
        self.blocking
    }

    fn execute(&self) -> (r: Result<i64, TaskError>) {
        match self.x.checked_mul(self.x) {
            Some(v) => Ok(v),
            None => Err(TaskError::new(crate::callable::overflow_kind())),
        }
    }

    fn is_blocking(&self) -> (r: bool) {
        self.blocking
    }
}

/// A ready-made task that always fails with a fixed error kind.
pub struct FailingTask {
    pub kind_name: String,
}

impl VirtualTask<i64> for FailingTask {
    open spec fn spec_result(&self) -> Result<i64, Seq<char>> {
        Err(self.kind_name@)
    }

    open spec fn spec_blocking(&self) -> bool {
        false
    }

    fn execute(&self) -> (r: Result<i64, TaskError>) {
        Err(TaskError::new(self.kind_name.clone()))
    }

    fn is_blocking(&self) -> (r: bool) {
        false
    }
}

/// The terminated count of a registry never exceeds its length.
proof fn lemma_count_terminated_bound<K, R>(ts: Seq<VirtualThread<K, R>>)
    ensures
        0 <= count_terminated(ts) <= ts.len(),
    decreases ts.len(),
{
    if ts.len() > 0 {
        lemma_count_terminated_bound(ts.drop_last());
    }
}

/// Appending a record extends the terminated count by one exactly when the
/// record is terminated.
proof fn lemma_count_terminated_push<K, R>(ts: Seq<VirtualThread<K, R>>, t: VirtualThread<K, R>)
    requires
        ts.push(t).last() == t,
    ensures
        count_terminated(ts.push(t)) == count_terminated(ts) + if t.state is Terminated {
            1int
        } else {
            0int
        },
{
    assert(ts.push(t).drop_last() =~= ts);
}

/// Terminating one previously unterminated record raises the terminated
/// count by one.
proof fn lemma_count_terminated_update<K, R>(
    a: Seq<VirtualThread<K, R>>,
    b: Seq<VirtualThread<K, R>>,
    i: int,
)
    requires
        0 <= i < a.len(),
        b.len() == a.len(),
        forall|j: int| 0 <= j < a.len() && j != i ==> #[trigger] b[j] == a[j],
        !(a[i].state is Terminated),
        b[i].state is Terminated,
    ensures
        count_terminated(b) == count_terminated(a) + 1,
    decreases a.len(),
{
    if i == a.len() - 1 {
        assert(b.drop_last() =~= a.drop_last());
    } else {
        assert(b.last() == a.last());
        lemma_count_terminated_update(a.drop_last(), b.drop_last(), i);
    }
}

} // verus!
