//! The distributed executor: tasks described by value (a function name and
//! pre-encoded arguments), tracked through their status lifecycle, assigned
//! to cluster nodes by the load balancer, and completed by an explicit
//! result callback from the embedding that runs the remote side.

use vstd::prelude::*;

use crate::callable::{Combiner, Mapper};
use crate::cluster::{ClusterManager, LoadBalancer, TaskRequirements};
use crate::combinators::{fold_vec, map_chunk, maps_to, some_call_fails, spec_fold};
use crate::error::{ErrorKind, ParallelError};
use crate::text::u64_to_hex;

verus! {

/// The status of a distributed task. `Pending` and `Assigned` tasks can
/// still be cancelled; a `Running` task cannot be revoked.
#[derive(Clone, Copy, Debug, PartialEq, Eq, Structural)]
pub enum TaskStatus {
    Pending,
    Assigned,
    Running,
    Completed,
    Failed,
    Cancelled,
}

/// A task to run remotely: a function name and arguments encoded by the
/// caller, the node it was routed to, and its requirements.
pub struct DistributedTask {
    pub id: String,
    pub function_name: String,
    pub args: Vec<String>,
    pub node_id: Option<String>,
    pub priority: u8,
    pub requirements: Option<TaskRequirements>,
}

/// The reported outcome of a distributed task.
pub struct TaskResult {
    pub task_id: String,
    pub success: bool,
    pub result: Option<String>,
    pub error: Option<String>,
    pub execution_time_us: u64,
    pub node_id: String,
}

/// `i` is the index of the first task carrying the identifier.
pub open spec fn is_first_task_with_id(
    ts: Seq<(DistributedTask, TaskStatus)>,
    id: Seq<char>,
    i: int,
) -> bool {
    &&& 0 <= i < ts.len()
    &&& ts[i].0.id@ == id
    &&& forall|q: int| 0 <= q < i ==> (#[trigger] ts[q]).0.id@ != id
}

/// `i` is the index of the first recorded result carrying the identifier.
pub open spec fn is_first_result_with_id(rs: Seq<TaskResult>, id: Seq<char>, i: int) -> bool {
    &&& 0 <= i < rs.len()
    &&& rs[i].task_id@ == id
    &&& forall|q: int| 0 <= q < i ==> (#[trigger] rs[q]).task_id@ != id
}

/// A task in this status can still be cancelled.
pub open spec fn cancellable_status(st: TaskStatus) -> bool {
    st == TaskStatus::Pending || st == TaskStatus::Assigned
}

/// The payload of a reported result (empty when none was attached).
pub open spec fn result_payload(t: TaskResult) -> Seq<char> {
    match t.result {
        Some(s) => s@,
        None => Seq::empty(),
    }
}

/// The error text of a reported result (empty when none was attached).
pub open spec fn result_error(t: TaskResult) -> Seq<char> {
    match t.error {
        Some(s) => s@,
        None => Seq::empty(),
    }
}

/// Runs tasks across a cluster: it registers submissions, routes them with
/// its balancer, and hands out results the embedding reports back.
pub struct DistributedExecutor {
    pub cluster: ClusterManager,
    pub load_balancer: LoadBalancer,
    pub tasks: Vec<(DistributedTask, TaskStatus)>,
    pub results: Vec<TaskResult>,
}

impl DistributedExecutor {
    /// Build an executor over a cluster; the default balancer picks the
    /// least-loaded node.
    pub fn new(cluster: ClusterManager, load_balancer: Option<LoadBalancer>) -> (r:
        DistributedExecutor)
        ensures
            r.cluster == cluster,
            load_balancer matches Some(b) ==> r.load_balancer == b,
            r.tasks@.len() == 0,
            r.results@.len() == 0,
    {
        DistributedExecutor {
            cluster,
            load_balancer: match load_balancer {
                Some(b) => b,
                None => LoadBalancer::new(None),
            },
            tasks: Vec::new(),
            results: Vec::new(),
        }
    }

    /// Submit one task: it is registered as `Pending`, routed to a node the
    /// balancer picks (none when no node is active), and its fresh
    /// identifier is returned.
    pub fn submit_task(
        &mut self,
        function_name: String,
        args: Vec<String>,
        requirements: Option<TaskRequirements>,
    ) -> (r: String)
        ensures
            final(self).cluster == old(self).cluster,
            final(self).load_balancer == old(self).load_balancer,
            final(self).results == old(self).results,
            final(self).tasks@.len() == old(self).tasks@.len() + 1,
            forall|q: int|
                0 <= q < old(self).tasks@.len() ==> #[trigger] final(self).tasks@[q] == old(
                    self,
                ).tasks@[q],
            final(self).tasks@.last().1 == TaskStatus::Pending,
            final(self).tasks@.last().0.id == r,
            final(self).tasks@.last().0.function_name == function_name,
            final(self).tasks@.last().0.args == args,
            final(self).tasks@.last().0.requirements == requirements,
            final(self).tasks@.last().0.node_id is None ==> forall|i: int|
                0 <= i < old(self).cluster.nodes@.len() ==> !crate::cluster::node_active(
                    #[trigger] old(self).cluster.nodes@[i],
                ),
            final(self).tasks@.last().0.node_id matches Some(nid) ==> exists|i: int|
                0 <= i < old(self).cluster.nodes@.len() && crate::cluster::node_active(
                    #[trigger] old(self).cluster.nodes@[i],
                ) && nid@ == old(self).cluster.nodes@[i].id@ && crate::cluster::strategy_picks(
                    old(self).load_balancer.strategy,
                    old(self).cluster.nodes@,
                    i,
                    requirements,
                ),
    {
        let entropy = crate::checkpoint::fresh_entropy();
        let task_id = u64_to_hex(entropy, 16);
        let selected = self.load_balancer.select_node(&self.cluster, requirements);
        let task = DistributedTask {
            id: task_id.clone(),
            function_name,
            args,
            node_id: selected,
            priority: 5,
            requirements,
        };
        self.tasks.push((task, TaskStatus::Pending));
        task_id
    }

    /// Submit one task per argument list, in order, returning the fresh
    /// identifiers in the same order.
    pub fn submit_batch(
        &mut self,
        function_name: String,
        args_list: Vec<Vec<String>>,
        requirements: Option<TaskRequirements>,
    ) -> (r: Vec<String>)
        ensures
            final(self).cluster == old(self).cluster,
            final(self).load_balancer == old(self).load_balancer,
            final(self).results == old(self).results,
            r@.len() == args_list@.len(),
            final(self).tasks@.len() == old(self).tasks@.len() + args_list@.len(),
            forall|q: int|
                0 <= q < old(self).tasks@.len() ==> #[trigger] final(self).tasks@[q] == old(
                    self,
                ).tasks@[q],
            forall|i: int|
                0 <= i < args_list@.len() ==> {
                    let entry = #[trigger] final(self).tasks@[old(self).tasks@.len() + i];
                    &&& entry.1 == TaskStatus::Pending
                    &&& entry.0.args == args_list@[i]
                    &&& entry.0.function_name@ == function_name@
                    &&& entry.0.id == r@[i]
                },
    {
        let ghost orig = *self;
        let ghost all_args = args_list@;
        let total = args_list.len();
        let mut rest = args_list;
        let mut ids: Vec<String> = Vec::new();
        let mut k: usize = 0;
        while rest.len() > 0
            invariant
                k + rest@.len() == total,
                total == all_args.len(),
                rest@ == all_args.skip(k as int),
                self.cluster == orig.cluster,
                self.load_balancer == orig.load_balancer,
                self.results == orig.results,
                ids@.len() == k,
                self.tasks@.len() == orig.tasks@.len() + k,
                forall|q: int|
                    0 <= q < orig.tasks@.len() ==> #[trigger] self.tasks@[q] == orig.tasks@[q],
                forall|i: int|
                    0 <= i < k ==> {
                        let entry = #[trigger] self.tasks@[orig.tasks@.len() + i];
                        &&& entry.1 == TaskStatus::Pending
                        &&& entry.0.args == all_args[i]
                        &&& entry.0.function_name@ == function_name@
                        &&& entry.0.id == ids@[i]
                    },
            decreases rest@.len(),
        {
            proof {
                assert(all_args.skip(k as int)[0] == all_args[k as int]);
            }
            let args = rest.remove(0);
            proof {
                assert(rest@ =~= all_args.skip(k + 1 as int));
            }
            let id = self.submit_task(function_name.clone(), args, requirements);
            ids.push(id);
            k = k + 1;
        }
        proof {
            assert(orig == *old(self));
        }
        ids
    }

    /// The status of the task with the given identifier, or `NotFound` when
    /// no such task was submitted.
    pub fn get_task_status(&self, task_id: &String) -> (r: Result<TaskStatus, ParallelError>)
        ensures
            match r {
                Ok(st) => exists|i: int|
                    0 <= i < self.tasks@.len() && (#[trigger] self.tasks@[i]).0.id@ == task_id@
                        && self.tasks@[i].1 == st,
                Err(e) => e.kind == ErrorKind::NotFound && forall|i: int|
                    0 <= i < self.tasks@.len() ==> (#[trigger] self.tasks@[i]).0.id@ != task_id@,
            },
    {
        let mut i: usize = 0;
        let n = self.tasks.len();
        while i < n
            invariant
                i <= n,
                n == self.tasks@.len(),
                forall|q: int| 0 <= q < i ==> (#[trigger] self.tasks@[q]).0.id@ != task_id@,
            decreases n - i,
        {
            if eq_string(&self.tasks[i].0.id, task_id) {
                return Ok(self.tasks[i].1);
            }
            i = i + 1;
        }
        Err(ParallelError::new(ErrorKind::NotFound))
    }

    /// Report the outcome of a task: the result is recorded, and the first
    /// task with that identifier moves to `Completed` or `Failed` according
    /// to the reported success. This is the completion callback the
    /// embedding's remote machinery invokes.
    pub fn record_result(&mut self, outcome: TaskResult)
        ensures
            final(self).cluster == old(self).cluster,
            final(self).load_balancer == old(self).load_balancer,
            final(self).results@ == old(self).results@.push(outcome),
            final(self).tasks@.len() == old(self).tasks@.len(),
            (forall|i: int|
                0 <= i < old(self).tasks@.len() ==> (#[trigger] old(self).tasks@[i]).0.id@
                    != outcome.task_id@) ==> final(self).tasks@ == old(self).tasks@,
            forall|i: int|
                is_first_task_with_id(old(self).tasks@, outcome.task_id@, i) ==> final(self).tasks@
                    == old(self).tasks@.update(
                    i,
                    (
                        old(self).tasks@[i].0,
                        if outcome.success {
                            TaskStatus::Completed
                        } else {
                            TaskStatus::Failed
                        },
                    ),
                ),
    {
        let found = {
            let mut i: usize = 0;
            let n = self.tasks.len();
            let mut slot: Option<usize> = None;
            while i < n && slot.is_none()
                invariant
                    i <= n,
                    n == self.tasks@.len(),
                    match slot {
                        Some(k) => k < n && self.tasks@[k as int].0.id@ == outcome.task_id@
                            && forall|q: int|
                            0 <= q < k ==> (#[trigger] self.tasks@[q]).0.id@ != outcome.task_id@,
                        None => forall|q: int|
                            0 <= q < i ==> (#[trigger] self.tasks@[q]).0.id@ != outcome.task_id@,
                    },
                decreases n - i, (if slot is None {
                    1int
                } else {
                    0int
                }),
            {
                if eq_string(&self.tasks[i].0.id, &outcome.task_id) {
                    slot = Some(i);
                } else {
                    i = i + 1;
                }
            }
            slot
        };
        match found {
            Some(i) => {
                let ghost pre = self.tasks@;
                let (task, _) = self.tasks.remove(i);
                let status = if outcome.success {
                    TaskStatus::Completed
                } else {
                    TaskStatus::Failed
                };
                self.tasks.insert(i, (task, status));
                proof {
                    assert(self.tasks@ =~= pre.update(i as int, (pre[i as int].0, status)));
                    assert(is_first_task_with_id(pre, outcome.task_id@, i as int));
                    assert forall|j: int|
                        is_first_task_with_id(pre, outcome.task_id@, j) implies j == i by {
                        if j < i {
                            assert(pre[j].0.id@ != outcome.task_id@);
                        } else if j > i {
                            assert(pre[i as int].0.id@ != outcome.task_id@);
                        }
                    }
                }
            },
            None => {},
        }
        self.results.push(outcome);
    }

    /// The recorded result of a task: its value when it succeeded, its error
    /// surfaced as `TaskFailed` when it failed, or nothing when no result
    /// has been reported for the identifier yet.
    pub fn get_result(&self, task_id: &String) -> (r: Result<Option<String>, ParallelError>)
        ensures
            match r {
                Ok(opt) => match opt {
                    Some(v) => exists|i: int|
                        #[trigger] is_first_result_with_id(self.results@, task_id@, i)
                            && self.results@[i].success && v@ == result_payload(self.results@[i]),
                    None => forall|i: int|
                        0 <= i < self.results@.len() ==> (#[trigger] self.results@[i]).task_id@
                            != task_id@,
                },
                Err(e) => e.kind == ErrorKind::TaskFailed && exists|i: int|
                    #[trigger] is_first_result_with_id(self.results@, task_id@, i)
                        && !self.results@[i].success && e.message@ == result_error(
                        self.results@[i],
                    ),
            },
    {
        let mut i: usize = 0;
        let n = self.results.len();
        while i < n
            invariant
                i <= n,
                n == self.results@.len(),
                forall|q: int| 0 <= q < i ==> (#[trigger] self.results@[q]).task_id@ != task_id@,
            decreases n - i,
        {
            if eq_string(&self.results[i].task_id, task_id) {
                proof {
                    assert(is_first_result_with_id(self.results@, task_id@, i as int));
                }
                if self.results[i].success {
                    let value = match &self.results[i].result {
                        Some(v) => v.clone(),
                        None => String::new(),
                    };
                    return Ok(Some(value));
                } else {
                    let message = match &self.results[i].error {
                        Some(m) => m.clone(),
                        None => String::new(),
                    };
                    return Err(ParallelError::with_message(ErrorKind::TaskFailed, message));
                }
            }
            i = i + 1;
        }
        Ok(None)
    }

    /// The successes reported so far, as identifier-value pairs in report
    /// order.
    pub fn wait_for_all(&self) -> (r: Vec<(String, String)>)
        ensures
            r@.len() == self.results@.filter(|t: TaskResult| t.success).len(),
            forall|i: int|
                0 <= i < r@.len() ==> (#[trigger] r@[i]).0@ == self.results@.filter(
                    |t: TaskResult| t.success,
                )[i].task_id@ && r@[i].1@ == result_payload(
                    self.results@.filter(|t: TaskResult| t.success)[i],
                ),
    {
        broadcast use vstd::seq_lib::group_filter_ensures;

        let ghost p = |t: TaskResult| t.success;
        let mut out: Vec<(String, String)> = Vec::new();
        let mut i: usize = 0;
        let n = self.results.len();
        while i < n
            invariant
                i <= n,
                n == self.results@.len(),
                out@.len() == self.results@.take(i as int).filter(p).len(),
                forall|q: int|
                    0 <= q < out@.len() ==> (#[trigger] out@[q]).0@ == self.results@.take(
                        i as int,
                    ).filter(p)[q].task_id@ && out@[q].1@ == result_payload(
                        self.results@.take(i as int).filter(p)[q],
                    ),
                p == |t: TaskResult| t.success,
            decreases n - i,
        {
            proof {
                assert(self.results@.take(i + 1 as int) =~= self.results@.take(i as int).push(
                    self.results@[i as int],
                ));
                self.results@.take(i as int).lemma_filter_push(self.results@[i as int], p);
            }
            if self.results[i].success {
                let value = match &self.results[i].result {
                    Some(v) => v.clone(),
                    None => String::new(),
                };
                out.push((self.results[i].task_id.clone(), value));
            }
            i = i + 1;
        }
        proof {
            assert(self.results@.take(n as int) =~= self.results@);
        }
        out
    }

    /// Cancel a task: a `Pending` or `Assigned` task becomes `Cancelled` and
    /// the call returns true; a task already running, finished or unknown is
    /// left alone and the call returns false.
    pub fn cancel_task(&mut self, task_id: &String) -> (r: bool)
        ensures
            final(self).cluster == old(self).cluster,
            final(self).load_balancer == old(self).load_balancer,
            final(self).results == old(self).results,
            final(self).tasks@.len() == old(self).tasks@.len(),
            (forall|i: int|
                0 <= i < old(self).tasks@.len() ==> (#[trigger] old(self).tasks@[i]).0.id@
                    != task_id@) ==> !r && final(self).tasks@ == old(self).tasks@,
            forall|i: int|
                is_first_task_with_id(old(self).tasks@, task_id@, i) ==> if cancellable_status(
                    old(self).tasks@[i].1,
                ) {
                    r && final(self).tasks@ == old(self).tasks@.update(
                        i,
                        (old(self).tasks@[i].0, TaskStatus::Cancelled),
                    )
                } else {
                    !r && final(self).tasks@ == old(self).tasks@
                },
    {
        let mut i: usize = 0;
        let n = self.tasks.len();
        let mut slot: Option<usize> = None;
        while i < n && slot.is_none()
            invariant
                i <= n,
                n == self.tasks@.len(),
                match slot {
                    Some(k) => k < n && self.tasks@[k as int].0.id@ == task_id@ && forall|q: int|
                        0 <= q < k ==> (#[trigger] self.tasks@[q]).0.id@ != task_id@,
                    None => forall|q: int|
                        0 <= q < i ==> (#[trigger] self.tasks@[q]).0.id@ != task_id@,
                },
            decreases n - i, (if slot is None {
                1int
            } else {
                0int
            }),
        {
            if eq_string(&self.tasks[i].0.id, task_id) {
                slot = Some(i);
            } else {
                i = i + 1;
            }
        }
        match slot {
            Some(k) => {
                proof {
                    assert(is_first_task_with_id(self.tasks@, task_id@, k as int));
                    assert forall|j: int|
                        is_first_task_with_id(self.tasks@, task_id@, j) implies j == k by {
                        if j < k {
                            assert(self.tasks@[j].0.id@ != task_id@);
                        } else if j > k {
                            assert(self.tasks@[k as int].0.id@ != task_id@);
                        }
                    }
                }
                let cancellable = match self.tasks[k].1 {
                    TaskStatus::Pending => true,
                    TaskStatus::Assigned => true,
                    _ => false,
                };
                if cancellable {
                    let ghost pre = self.tasks@;
                    let (task, _) = self.tasks.remove(k);
                    self.tasks.insert(k, (task, TaskStatus::Cancelled));
                    proof {
                        assert(self.tasks@ =~= pre.update(
                            k as int,
                            (pre[k as int].0, TaskStatus::Cancelled),
                        ));
                    }
                    true
                } else {
                    false
                }
            },
            None => false,
        }
    }

    /// The executor's counters: tasks submitted, completed and failed, the
    /// success share in thousandths, and the mean reported execution time.
    pub fn get_stats(&self) -> (r: (usize, usize, usize, u64, u64))
        ensures
            r.0 == self.tasks@.len(),
            r.1 == self.tasks@.filter(|t: (DistributedTask, TaskStatus)| t.1 is Completed).len(),
            r.2 == self.tasks@.filter(|t: (DistributedTask, TaskStatus)| t.1 is Failed).len(),
            self.tasks@.len() == 0 ==> r.3 == 0,
            self.results@.len() == 0 ==> r.4 == 0,
    {
        broadcast use vstd::seq_lib::group_filter_ensures;

        let ghost pc = |t: (DistributedTask, TaskStatus)| t.1 is Completed;
        let ghost pf = |t: (DistributedTask, TaskStatus)| t.1 is Failed;
        let mut completed: usize = 0;
        let mut failed: usize = 0;
        let mut i: usize = 0;
        let n = self.tasks.len();
        while i < n
            invariant
                i <= n,
                n == self.tasks@.len(),
                completed == self.tasks@.take(i as int).filter(pc).len(),
                failed == self.tasks@.take(i as int).filter(pf).len(),
                completed <= i,
                failed <= i,
                pc == |t: (DistributedTask, TaskStatus)| t.1 is Completed,
                pf == |t: (DistributedTask, TaskStatus)| t.1 is Failed,
            decreases n - i,
        {
            proof {
                assert(self.tasks@.take(i + 1 as int) =~= self.tasks@.take(i as int).push(
                    self.tasks@[i as int],
                ));
                self.tasks@.take(i as int).lemma_filter_push(self.tasks@[i as int], pc);
                self.tasks@.take(i as int).lemma_filter_push(self.tasks@[i as int], pf);
            }
            match self.tasks[i].1 {
                TaskStatus::Completed => {
                    completed = completed + 1;
                },
                TaskStatus::Failed => {
                    failed = failed + 1;
                },
                _ => {},
            }
            i = i + 1;
        }
        proof {
            assert(self.tasks@.take(n as int) =~= self.tasks@);
        }
        let success_milli: u64 = if n == 0 {
            0
        } else {
            proof {
                assert((completed as int) * 1000 / (n as int) <= 1000) by (nonlinear_arith)
                    requires
                        1 <= n,
                        0 <= completed <= n,
                ;
                assert((completed as int) * 1000 / (n as int) >= 0) by (nonlinear_arith)
                    requires
                        1 <= n,
                        0 <= completed,
                ;
            }
            ((completed as u128) * 1000 / (n as u128)) as u64
        };
        let mut time_total: u64 = 0;
        let mut j: usize = 0;
        let m = self.results.len();
        while j < m
            invariant
                j <= m,
                m == self.results@.len(),
            decreases m - j,
        {
            time_total = time_total.saturating_add(self.results[j].execution_time_us);
            j = j + 1;
        }
        let average_time: u64 = if m == 0 {
            0
        } else {
            time_total / (m as u64)
        };
        (n, completed, failed, success_milli, average_time)
    }
}

/// Compare two strings by their characters.
fn eq_string(a: &String, b: &String) -> (r: bool)
    ensures
        r == (a@ == b@),
{
    *a == *b
}

/// Run `f` over every item in order on the local node, in chunks of
/// `chunk_size` (or a tenth of the input): the distributed dispatch of the
/// chunks is the embedding's concern, and the result is the in-order image
/// of the input either way. The call succeeds exactly when every item maps
/// successfully.
pub fn cluster_map<T, U, M: Mapper<T, U>>(
    f: &M,
    items: Vec<T>,
    cluster: &ClusterManager,
    chunk_size: Option<usize>,
) -> (r: Result<Vec<U>, ParallelError>)
    ensures
        r matches Ok(out) ==> maps_to(f, items@, out@),
        r matches Err(e) ==> e.kind == ErrorKind::TaskFailed && some_call_fails(
            f,
            items@,
            e.message@,
        ),
        (forall|i: int|
            0 <= i < items@.len() ==> (#[trigger] f.spec_call(items@[i])) is Ok) ==> r is Ok,
{
    let _ = cluster;
    let _ = chunk_size;
    match map_chunk(f, &items) {
        Ok(out) => Ok(out),
        Err(e) => Err(ParallelError::with_message(ErrorKind::TaskFailed, e.kind_name)),
    }
}

/// Reduce `items` from the left under `f`, seeded with the initializer when
/// one is given and with the first item otherwise; an empty input with no
/// initializer is a `ReduceEmpty` error. Tree distribution across nodes is
/// the embedding's concern; the fold order is fixed here.
pub fn distributed_reduce<T, C: Combiner<T>>(
    f: &C,
    items: Vec<T>,
    initializer: Option<T>,
    cluster: &ClusterManager,
) -> (r: Result<T, ParallelError>)
    ensures
        items@.len() == 0 && initializer is None ==> (r matches Err(e) && e.kind
            == ErrorKind::ReduceEmpty),
        items@.len() == 0 && initializer is Some ==> r == Ok::<T, ParallelError>(initializer->0),
        items@.len() >= 1 && initializer is Some ==> r == Ok::<T, ParallelError>(
            spec_fold(f, initializer->0, items@),
        ),
        items@.len() >= 1 && initializer is None ==> r == Ok::<T, ParallelError>(
            spec_fold(f, items@.first(), items@.drop_first()),
        ),
{
    let _ = cluster;
    let ghost all = items@;
    let mut rest = items;
    match initializer {
        Some(e0) => {
            if rest.len() == 0 {
                return Ok(e0);
            }
            Ok(fold_vec(f, e0, rest))
        },
        None => {
            if rest.len() == 0 {
                return Err(ParallelError::new(ErrorKind::ReduceEmpty));
            }
            let first = rest.remove(0);
            proof {
                assert(rest@ =~= all.drop_first());
            }
            Ok(fold_vec(f, first, rest))
        },
    }
}

} // verus!
